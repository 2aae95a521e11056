//! The native methods: the methods of the class library that the machine
//! does itself, found by the name of their class and their own.
//!
//! A native method finds its arguments in the local variables of its frame
//! and hands its result to the frame that invoked it.

use vstd::prelude::*;
use vstd::string::*;

use crate::cell::{cell_of, int_of, to_signed};
use crate::error::VmError;
use crate::fields::{class_of_object, object_class, overwritten};
use crate::frame::{long_cells, Frame, Throwable};
use crate::heap::{Heap, ObjectView};
use crate::interp::{await_class, Step};
use crate::klass::{index_of, lemma_index_of, offset_in, Klass, MethodArea};
use crate::memory::GlobalMemory;
use crate::objects::{array_element_cells, is_array};
use crate::strings::{
    java_string_from_string, string_class_name, string_failure, string_from_java_string,
    string_made, text_of_string, the_string_class,
};
use crate::constants::mirror_of;
use crate::thread::{awaited, left_post, Thread};

verus! {

/// What a native method of the catalog does.
#[derive(Clone, Copy, Debug, PartialEq, Eq, Structural)]
pub enum Native {
    /// Nothing.
    Nothing,
    /// It returns this cell.
    Constant(u32),
    /// It returns its first local variables, as many as this.
    Pass(u8),
    /// `Object.getClass`: it returns the mirror of the class of the
    /// receiver.
    GetClass,
    /// `Class.initClassName`: it returns a string with the name of the
    /// class whose mirror the receiver is.
    InitClassName,
    /// `Class.getPrimitiveClass`: it returns the mirror of the wrapper class
    /// of the primitive type that its argument names.
    GetPrimitiveClass,
    /// `System.arraycopy`.
    ArrayCopy,
    /// `Unsafe.objectFieldOffset1`: it returns, as a `long`, the offset of
    /// the field that its second argument names in the instances of the
    /// class whose mirror its first argument is.
    ObjectFieldOffset,
    /// `System.nanoTime`: it returns the time, which the host tells.
    NanoTime,
}

/// The catalog: what the method named `method` of the class named `class`
/// does; `None` for a method that is not in the catalog.
pub open spec fn spec_native(class: Seq<char>, method: Seq<char>) -> Option<Native> {
    if class == "java/lang/Object"@ && method == "registerNatives"@ {
        Some(Native::Nothing)
    } else if class == "java/lang/Object"@ && method == "getClass"@ {
        Some(Native::GetClass)
    } else if class == "java/lang/Object"@ && method == "hashCode"@ {
        Some(Native::Pass(1))
    } else if class == "java/lang/Class"@ && method == "registerNatives"@ {
        Some(Native::Nothing)
    } else if class == "java/lang/Class"@ && method == "initClassName"@ {
        Some(Native::InitClassName)
    } else if class == "java/lang/Class"@ && method == "desiredAssertionStatus0"@ {
        Some(Native::Constant(1))
    } else if class == "java/lang/Class"@ && method == "getPrimitiveClass"@ {
        Some(Native::GetPrimitiveClass)
    } else if class == "java/lang/System"@ && method == "registerNatives"@ {
        Some(Native::Nothing)
    } else if class == "java/lang/System"@ && method == "arraycopy"@ {
        Some(Native::ArrayCopy)
    } else if class == "java/lang/System"@ && method == "identityHashCode"@ {
        Some(Native::Pass(1))
    } else if class == "java/lang/System"@ && method == "initProperties"@ {
        Some(Native::Pass(1))
    } else if class == "java/lang/System"@ && method == "nanoTime"@ {
        Some(Native::NanoTime)
    } else if class == "java/lang/StringUTF16"@ && method == "isBigEndian"@ {
        Some(Native::Constant(1))
    } else if class == "java/lang/Float"@ && method == "floatToRawIntBits"@ {
        Some(Native::Pass(1))
    } else if class == "java/lang/Double"@ && method == "doubleToRawLongBits"@ {
        Some(Native::Pass(2))
    } else if class == "java/lang/Double"@ && method == "longBitsToDouble"@ {
        Some(Native::Pass(2))
    } else if class == "java/lang/Throwable"@ && method == "fillInStackTrace"@ {
        Some(Native::Pass(1))
    } else if class == "jdk/internal/misc/Unsafe"@ && method == "registerNatives"@ {
        Some(Native::Nothing)
    } else if class == "jdk/internal/misc/Unsafe"@ && method == "arrayBaseOffset0"@ {
        Some(Native::Constant(0))
    } else if class == "jdk/internal/misc/Unsafe"@ && method == "arrayIndexScale0"@ {
        Some(Native::Constant(0))
    } else if class == "jdk/internal/misc/Unsafe"@ && method == "addressSize0"@ {
        Some(Native::Constant(0))
    } else if class == "jdk/internal/misc/Unsafe"@ && method == "isBigEndian0"@ {
        Some(Native::Constant(1))
    } else if class == "jdk/internal/misc/Unsafe"@ && method == "unalignedAccess0"@ {
        Some(Native::Constant(1))
    } else if class == "jdk/internal/misc/Unsafe"@ && method == "objectFieldOffset1"@ {
        Some(Native::ObjectFieldOffset)
    } else if class == "jdk/internal/misc/Unsafe"@ && method == "storeFence"@ {
        Some(Native::Nothing)
    } else if class == "java/lang/Runtime"@ && method == "availableProcessors"@ {
        Some(Native::Constant(1))
    } else if class == "java/lang/Thread"@ && method == "registerNatives"@ {
        Some(Native::Nothing)
    } else if class == "jdk/internal/misc/VM"@ && method == "initialize"@ {
        Some(Native::Nothing)
    } else if class == "jdk/internal/misc/VM"@ && method == "initializeFromArchive"@ {
        Some(Native::Nothing)
    } else {
        None
    }
}

/// The wrapper class of the primitive type named `text`.
pub open spec fn spec_wrapper(text: Seq<char>) -> Option<Seq<char>> {
    if text == "int"@ {
        Some("java/lang/Integer"@)
    } else if text == "float"@ {
        Some("java/lang/Float"@)
    } else if text == "double"@ {
        Some("java/lang/Double"@)
    } else if text == "boolean"@ {
        Some("java/lang/Boolean"@)
    } else if text == "long"@ {
        Some("java/lang/Long"@)
    } else if text == "short"@ {
        Some("java/lang/Short"@)
    } else if text == "byte"@ {
        Some("java/lang/Byte"@)
    } else if text == "char"@ {
        Some("java/lang/Character"@)
    } else if text == "void"@ {
        Some("java/lang/Void"@)
    } else {
        None
    }
}

/// Whether two texts are the same.
pub fn same_text(a: &str, b: &str) -> (r: bool)
    ensures
        r == (a@ == b@),
{
    a.to_owned() == b.to_owned()
}

/// Looks a native method up in the catalog.
pub fn lookup_native(class: &str, method: &str) -> (r: Option<Native>)
    ensures
        r == spec_native(class@, method@),
{
    if same_text(class, "java/lang/Object") && same_text(method, "registerNatives") {
        Some(Native::Nothing)
    } else if same_text(class, "java/lang/Object") && same_text(method, "getClass") {
        Some(Native::GetClass)
    } else if same_text(class, "java/lang/Object") && same_text(method, "hashCode") {
        Some(Native::Pass(1))
    } else if same_text(class, "java/lang/Class") && same_text(method, "registerNatives") {
        Some(Native::Nothing)
    } else if same_text(class, "java/lang/Class") && same_text(method, "initClassName") {
        Some(Native::InitClassName)
    } else if same_text(class, "java/lang/Class") && same_text(method, "desiredAssertionStatus0") {
        Some(Native::Constant(1))
    } else if same_text(class, "java/lang/Class") && same_text(method, "getPrimitiveClass") {
        Some(Native::GetPrimitiveClass)
    } else if same_text(class, "java/lang/System") && same_text(method, "registerNatives") {
        Some(Native::Nothing)
    } else if same_text(class, "java/lang/System") && same_text(method, "arraycopy") {
        Some(Native::ArrayCopy)
    } else if same_text(class, "java/lang/System") && same_text(method, "identityHashCode") {
        Some(Native::Pass(1))
    } else if same_text(class, "java/lang/System") && same_text(method, "initProperties") {
        Some(Native::Pass(1))
    } else if same_text(class, "java/lang/System") && same_text(method, "nanoTime") {
        Some(Native::NanoTime)
    } else if same_text(class, "java/lang/StringUTF16") && same_text(method, "isBigEndian") {
        Some(Native::Constant(1))
    } else if same_text(class, "java/lang/Float") && same_text(method, "floatToRawIntBits") {
        Some(Native::Pass(1))
    } else if same_text(class, "java/lang/Double") && same_text(method, "doubleToRawLongBits") {
        Some(Native::Pass(2))
    } else if same_text(class, "java/lang/Double") && same_text(method, "longBitsToDouble") {
        Some(Native::Pass(2))
    } else if same_text(class, "java/lang/Throwable") && same_text(method, "fillInStackTrace") {
        Some(Native::Pass(1))
    } else if same_text(class, "jdk/internal/misc/Unsafe") && same_text(method, "registerNatives") {
        Some(Native::Nothing)
    } else if same_text(class, "jdk/internal/misc/Unsafe") && same_text(method, "arrayBaseOffset0") {
        Some(Native::Constant(0))
    } else if same_text(class, "jdk/internal/misc/Unsafe") && same_text(method, "arrayIndexScale0") {
        Some(Native::Constant(0))
    } else if same_text(class, "jdk/internal/misc/Unsafe") && same_text(method, "addressSize0") {
        Some(Native::Constant(0))
    } else if same_text(class, "jdk/internal/misc/Unsafe") && same_text(method, "isBigEndian0") {
        Some(Native::Constant(1))
    } else if same_text(class, "jdk/internal/misc/Unsafe") && same_text(method, "unalignedAccess0") {
        Some(Native::Constant(1))
    } else if same_text(class, "jdk/internal/misc/Unsafe") && same_text(method, "objectFieldOffset1") {
        Some(Native::ObjectFieldOffset)
    } else if same_text(class, "jdk/internal/misc/Unsafe") && same_text(method, "storeFence") {
        Some(Native::Nothing)
    } else if same_text(class, "java/lang/Runtime") && same_text(method, "availableProcessors") {
        Some(Native::Constant(1))
    } else if same_text(class, "java/lang/Thread") && same_text(method, "registerNatives") {
        Some(Native::Nothing)
    } else if same_text(class, "jdk/internal/misc/VM") && same_text(method, "initialize") {
        Some(Native::Nothing)
    } else if same_text(class, "jdk/internal/misc/VM") && same_text(method, "initializeFromArchive") {
        Some(Native::Nothing)
    } else {
        None
    }
}

/// The wrapper class of the primitive type named `text`.
pub fn wrapper_of(text: &str) -> (r: Option<&'static str>)
    ensures
        match spec_wrapper(text@) {
            Some(name) => r is Some && r->0@ == name,
            None => r is None,
        },
{
    if same_text(text, "int") {
        Some("java/lang/Integer")
    } else if same_text(text, "float") {
        Some("java/lang/Float")
    } else if same_text(text, "double") {
        Some("java/lang/Double")
    } else if same_text(text, "boolean") {
        Some("java/lang/Boolean")
    } else if same_text(text, "long") {
        Some("java/lang/Long")
    } else if same_text(text, "short") {
        Some("java/lang/Short")
    } else if same_text(text, "byte") {
        Some("java/lang/Byte")
    } else if same_text(text, "char") {
        Some("java/lang/Character")
    } else if same_text(text, "void") {
        Some("java/lang/Void")
    } else {
        None
    }
}

/// The cells that a native method returns that looks at nothing but its
/// local variables; `None` for a method of another kind. Fails with
/// `BadLocal` where the frame has fewer local variables than it returns.
pub open spec fn plain_values(native: Native, locals: Seq<u32>) -> Option<Result<Seq<u32>, VmError>> {
    match native {
        Native::Nothing => Some(Ok(Seq::empty())),
        Native::Constant(v) => Some(Ok(seq![v])),
        Native::Pass(n) => if locals.len() < n {
            Some(Err(VmError::BadLocal))
        } else {
            Some(Ok(locals.subrange(0, n as int)))
        },
        _ => None,
    }
}

/// The position of the first record whose mirror is `mirror`.
pub open spec fn class_with_mirror(classes: Seq<Klass>, mirror: u32) -> Option<int>
    decreases classes.len(),
{
    if classes.len() == 0 {
        None
    } else {
        match class_with_mirror(classes.drop_last(), mirror) {
            Some(i) => Some(i),
            None => if crate::constants::mirror_of(classes, classes.len() - 1) == Some(mirror) {
                Some(classes.len() - 1)
            } else {
                None
            },
        }
    }
}

proof fn lemma_class_with_mirror_prefix(classes: Seq<Klass>, mirror: u32, n: int)
    requires
        0 <= n <= classes.len(),
    ensures
        class_with_mirror(classes.subrange(0, n), mirror) is Some ==> class_with_mirror(
            classes,
            mirror,
        ) == class_with_mirror(classes.subrange(0, n), mirror),
    decreases classes.len() - n,
{
    if n == classes.len() {
        assert(classes.subrange(0, n) =~= classes);
    } else {
        lemma_class_with_mirror_prefix(classes, mirror, n + 1);
        assert(classes.subrange(0, n + 1).drop_last() =~= classes.subrange(0, n));
    }
}

/// Finds the record whose mirror is `mirror`.
pub fn find_by_mirror(area: &MethodArea, mirror: u32) -> (r: Option<usize>)
    ensures
        match class_with_mirror(area.classes@, mirror) {
            Some(i) => r is Some && r->0 as int == i && i < area.classes@.len(),
            None => r is None,
        },
{
    let mut i: usize = 0;
    while i < area.classes.len()
        invariant
            i <= area.classes.len(),
            class_with_mirror(area.classes@.subrange(0, i as int), mirror) is None,
        decreases area.classes.len() - i,
    {
        proof {
            assert(area.classes@.subrange(0, i + 1).drop_last() =~= area.classes@.subrange(
                0,
                i as int,
            ));
            assert(area.classes@.subrange(0, i + 1)[i as int] == area.classes@[i as int]);
            lemma_class_with_mirror_prefix(area.classes@, mirror, i + 1);
        }
        match area.classes[i].get_java_clone() {
            Some(m) => {
                if m == mirror {
                    return Some(i);
                }
            },
            None => {},
        }
        i = i + 1;
    }
    assert(area.classes@.subrange(0, i as int) =~= area.classes@);
    None
}

/// The name under which the class of an object is registered: its
/// descriptor for an array, the name in its descriptor for an instance of
/// a class.
pub open spec fn registered_name(object: ObjectView) -> Option<Seq<char>> {
    if is_array(object) {
        Some(object.descriptor)
    } else {
        class_of_object(object.descriptor)
    }
}

/// The mirror that `Object.getClass` returns for the receiver in local
/// variable 0. Fails with `BadLocal` where the frame has no local variable,
/// with `BadReference` where the receiver leads to no object of a class or
/// the class has no mirror, and with `ClassNotFound` where the class is not
/// registered.
pub open spec fn class_mirror(gm: GlobalMemory, locals: Seq<u32>) -> Result<u32, VmError> {
    let objects = gm.heap.objects();
    let classes = gm.method_area.classes@;
    if locals.len() < 1 {
        Err(VmError::BadLocal)
    } else if locals[0] >= objects.len() {
        Err(VmError::BadReference)
    } else {
        match registered_name(objects[locals[0] as int]) {
            None => Err(VmError::BadReference),
            Some(name) => match index_of(classes, name) {
                None => Err(VmError::ClassNotFound),
                Some(i) => match crate::constants::mirror_of(classes, i) {
                    None => Err(VmError::BadReference),
                    Some(mirror) => Ok(mirror),
                },
            },
        }
    }
}

/// `Object.getClass`.
pub fn get_class(gm: &GlobalMemory, frame: &Frame) -> (r: Result<u32, VmError>)
    requires
        gm.wf(),
    ensures
        r == class_mirror(*gm, frame.local_variables@),
{
    if frame.local_variables.len() < 1 {
        return Err(VmError::BadLocal);
    }
    let object = match gm.heap.load(frame.local_variables[0]) {
        Some(o) => o,
        None => {
            return Err(VmError::BadReference);
        },
    };
    assert(gm.heap.objects()[frame.local_variables@[0] as int] == object@);
    let name = if object.is_array() {
        object.field_descriptor.clone()
    } else {
        match object_class(object) {
            Some(n) => n,
            None => {
                return Err(VmError::BadReference);
            },
        }
    };
    proof {
        lemma_index_of(gm.method_area.classes@, name@);
    }
    match gm.method_area.find(name.as_str()) {
        Some(i) => match gm.method_area.classes[i].get_java_clone() {
            Some(mirror) => Ok(mirror),
            None => Err(VmError::BadReference),
        },
        None => Err(VmError::ClassNotFound),
    }
}

/// The offset that `Unsafe.objectFieldOffset1` returns: that of the field
/// whose name the string in local variable 2 spells, in the instances of
/// the class whose mirror is in local variable 1.
///
/// Fails with `BadLocal` where the frame has fewer than three local
/// variables, with `BadReference` where no class has that mirror, as
/// reading the string does, and with `NoSuchField` where the class has no
/// such field.
pub open spec fn field_offset_of(gm: GlobalMemory, locals: Seq<u32>) -> Result<nat, VmError> {
    let classes = gm.method_area.classes@;
    if locals.len() < 3 {
        Err(VmError::BadLocal)
    } else {
        match class_with_mirror(classes, locals[1]) {
            None => Err(VmError::BadReference),
            Some(i) => if !(classes[i] is Instance) {
                Err(VmError::BadReference)
            } else {
                match text_of_string(gm, locals[2]) {
                    Err(e) => Err(e),
                    Ok(name) => match offset_in(classes[i]->Instance_0.fields@, name) {
                        None => Err(VmError::NoSuchField),
                        Some(offset) => Ok(offset),
                    },
                }
            },
        }
    }
}

/// `Unsafe.objectFieldOffset1`.
pub fn object_field_offset(gm: &GlobalMemory, frame: &Frame) -> (r: Result<usize, VmError>)
    requires
        gm.wf(),
    ensures
        match field_offset_of(*gm, frame.local_variables@) {
            Ok(offset) => r is Ok && r->Ok_0 == offset,
            Err(e) => r == Err::<usize, VmError>(e),
        },
{
    if frame.local_variables.len() < 3 {
        return Err(VmError::BadLocal);
    }
    let i = match find_by_mirror(&gm.method_area, frame.local_variables[1]) {
        Some(i) => i,
        None => {
            return Err(VmError::BadReference);
        },
    };
    match &gm.method_area.classes[i] {
        Klass::Instance(k) => {
            assert(k.wf());
            let name = match string_from_java_string(gm, frame.local_variables[2]) {
                Ok(n) => n,
                Err(e) => {
                    return Err(e);
                },
            };
            k.field_offset_with_strings(&k.name, &name)
        },
        Klass::Array(_) => Err(VmError::BadReference),
    }
}

/// The five arguments of `System.arraycopy`, as the local variables hold
/// them.
pub struct CopyPlan {
    pub source: u32,
    pub source_position: int,
    pub target: u32,
    pub target_position: int,
    pub length: int,
}

/// The arguments of `System.arraycopy`.
pub open spec fn copy_plan(locals: Seq<u32>) -> CopyPlan {
    CopyPlan {
        source: locals[0],
        source_position: int_of(locals[1]),
        target: locals[2],
        target_position: int_of(locals[3]),
        length: int_of(locals[4]),
    }
}

/// What stands in the way of `System.arraycopy`, if anything does.
///
/// Fewer than five local variables fail with `BadLocal`. A null array
/// raises `NullPointerException`. A reference to no array fails with
/// `BadReference`, as do two arrays whose elements take different numbers
/// of cells. A negative position or length, or a range that leaves one of
/// the arrays, raises `ArrayIndexOutOfBoundsException`.
pub open spec fn copy_barrier(objects: Seq<ObjectView>, locals: Seq<u32>) -> Option<Result<Throwable, VmError>> {
    if locals.len() < 5 {
        Some(Err(VmError::BadLocal))
    } else {
        let plan = copy_plan(locals);
        if plan.source == 0 || plan.target == 0 {
            Some(Ok(Throwable::NullPointer))
        } else if plan.source >= objects.len() || plan.target >= objects.len() || !is_array(
            objects[plan.source as int],
        ) || !is_array(objects[plan.target as int]) || array_element_cells(
            objects[plan.source as int],
        ) != array_element_cells(objects[plan.target as int]) {
            Some(Err(VmError::BadReference))
        } else {
            let width = array_element_cells(objects[plan.source as int]);
            if plan.source_position < 0 || plan.target_position < 0 || plan.length < 0 || (
            plan.source_position + plan.length) * width > objects[plan.source as int].cells.len() || (
            plan.target_position + plan.length) * width > objects[plan.target as int].cells.len() {
                Some(Ok(Throwable::ArrayIndex))
            } else {
                None
            }
        }
    }
}

/// The objects after `System.arraycopy`: the elements of the target from
/// the target position on are those that the source had from the source
/// position on, as many as the length says. An element of two cells is
/// copied with both. Nothing else changes.
pub open spec fn copied_objects(objects: Seq<ObjectView>, locals: Seq<u32>) -> Seq<ObjectView> {
    let plan = copy_plan(locals);
    let width = array_element_cells(objects[plan.source as int]);
    let target = objects[plan.target as int];
    objects.update(
        plan.target as int,
        ObjectView {
            descriptor: target.descriptor,
            cells: overwritten(
                target.cells,
                plan.target_position * width,
                objects[plan.source as int].cells.subrange(
                    plan.source_position * width,
                    (plan.source_position + plan.length) * width,
                ),
            ),
        },
    )
}

/// `System.arraycopy`.
#[verifier::loop_isolation(false)]
pub fn array_copy(heap: &mut Heap, frame: &Frame) -> (r: Result<Option<Throwable>, VmError>)
    requires
        old(heap).wf(),
    ensures
        final(heap).wf(),
        match copy_barrier(old(heap).objects(), frame.local_variables@) {
            Some(Ok(t)) => r == Ok::<Option<Throwable>, VmError>(Some(t)) && *final(heap) == *old(
                heap,
            ),
            Some(Err(e)) => r == Err::<Option<Throwable>, VmError>(e) && *final(heap) == *old(heap),
            None => r == Ok::<Option<Throwable>, VmError>(None) && final(heap).objects()
                == copied_objects(old(heap).objects(), frame.local_variables@),
        },
{
    if frame.local_variables.len() < 5 {
        return Err(VmError::BadLocal);
    }
    let source = frame.local_variables[0];
    let target = frame.local_variables[2];
    if source == 0 || target == 0 {
        return Ok(Some(Throwable::NullPointer));
    }
    let ghost objects = heap.objects();
    let (from, to, count, width) = {
        let a = match heap.load(source) {
            Some(o) => o,
            None => {
                return Err(VmError::BadReference);
            },
        };
        let b = match heap.load(target) {
            Some(o) => o,
            None => {
                return Err(VmError::BadReference);
            },
        };
        assert(objects[source as int] == a@);
        assert(objects[target as int] == b@);
        if !a.is_array() || !b.is_array() {
            return Err(VmError::BadReference);
        }
        let source_cells = a.data.len();
        let target_cells = b.data.len();
        let width = a.element_width();
        if b.element_width() != width {
            return Err(VmError::BadReference);
        }
        let from = to_signed(frame.local_variables[1]);
        let to = to_signed(frame.local_variables[3]);
        let count = to_signed(frame.local_variables[4]);
        if from < 0 || to < 0 || count < 0 {
            return Ok(Some(Throwable::ArrayIndex));
        }
        let source_end: u64 = (from as u64 + count as u64) * (width as u64);
        let target_end: u64 = (to as u64 + count as u64) * (width as u64);
        if source_end > a.data.len() as u64 || target_end > b.data.len() as u64 {
            return Ok(Some(Throwable::ArrayIndex));
        }
        assert(from * width <= (from + count) * width && to * width <= (to + count) * width
            && count * width <= (from + count) * width) by (nonlinear_arith)
            requires
                from >= 0,
                to >= 0,
                count >= 0,
                width >= 1,
        ;
        ((from as usize) * width, (to as usize) * width, (count as usize) * width, width)
    };
    let ghost plan = copy_plan(frame.local_variables@);
    assert(from == plan.source_position * width && to == plan.target_position * width && count
        == plan.length * width) by (nonlinear_arith)
        requires
            from == (plan.source_position as usize) * width,
            to == (plan.target_position as usize) * width,
            count == (plan.length as usize) * width,
            0 <= plan.source_position <= i32::MAX,
            0 <= plan.target_position <= i32::MAX,
            0 <= plan.length <= i32::MAX,
    ;
    assert((plan.source_position + plan.length) * width == from + count && (plan.target_position
        + plan.length) * width == to + count) by (nonlinear_arith)
        requires
            from == plan.source_position * width,
            to == plan.target_position * width,
            count == plan.length * width,
    ;
    let mut moved: Vec<u32> = Vec::new();
    let mut i: usize = 0;
    while i < count
        invariant
            i <= count,
            source < heap.data@.len(),
            from + count <= heap.data@[source as int].data@.len(),
            moved@ == heap.data@[source as int].data@.subrange(from as int, from + i),
        decreases count - i,
    {
        moved.push(heap.data[source as usize].data[from + i]);
        i = i + 1;
        assert(moved@ =~= heap.data@[source as int].data@.subrange(from as int, from + i));
    }
    assert(moved@ == objects[source as int].cells.subrange(from as int, from + count));
    let object = heap.load_mut(target);
    let ghost cells = object.data@;
    assert(cells == objects[target as int].cells);
    let mut k: usize = 0;
    while k < count
        invariant
            k <= count,
            moved@.len() == count,
            object.field_descriptor == old(heap).data@[target as int].field_descriptor,
            object.data@.len() == cells.len(),
            to + count <= cells.len(),
            forall|x: int|
                0 <= x < cells.len() ==> object.data@[x] == if to <= x < to + k {
                    moved@[x - to]
                } else {
                    cells[x]
                },
        decreases count - k,
    {
        object.data[to + k] = moved[k];
        k = k + 1;
    }
    assert(object.data@ =~= overwritten(cells, to as int, moved@));
    proof {
        let w = array_element_cells(objects[plan.source as int]);
        assert(w == width);
        assert(plan.source_position * w == from);
        assert((plan.source_position + plan.length) * w == from + count);
        assert(plan.target_position * w == to);
        let expected = copied_objects(objects, frame.local_variables@);
        assert(expected[target as int].cells == overwritten(cells, to as int, moved@));
        assert(heap.objects().len() == expected.len());
        assert forall|j: int| 0 <= j < expected.len() implies heap.objects()[j] == expected[j] by {
            if j != target {
                assert(heap.data@[j] == old(heap).data@[j]);
            } else {
                assert(heap.data@[j].data@ == overwritten(cells, to as int, moved@));
                assert(heap.data@[j].field_descriptor == old(heap).data@[j].field_descriptor);
                assert(objects[j] == old(heap).data@[j]@);
            }
        }
    }
    assert(heap.objects() =~= copied_objects(objects, frame.local_variables@));
    Ok(None)
}

/// What running the native method of the running frame does.
///
/// The method is looked up in the catalog by the names of its class and
/// its own, and fails with `NativeMissing` where it is not there. What it
/// returns is handed to the invoker as at the end of any method. A method
/// that fails, raises or waits leaves the thread as it is.
pub open spec fn native_post(
    before: GlobalMemory,
    after: GlobalMemory,
    thread0: Thread,
    thread1: Thread,
    r: Result<Step, VmError>,
) -> bool {
    let frame0 = thread0.jvm_stack@.last();
    let locals = frame0.local_variables@;
    let classes = before.method_area.classes@;
    let unchanged = thread1 == thread0 && after == before;
    match spec_native(frame0.class_name@, frame0.method_name@) {
        None => r == Err::<Step, VmError>(VmError::NativeMissing) && unchanged,
        Some(native) => match native {
            Native::Nothing | Native::Constant(_) | Native::Pass(_) => match plain_values(
                native,
                locals,
            )->0 {
                Err(e) => r == Err::<Step, VmError>(e) && unchanged,
                Ok(values) => after == before && left_post(thread0, thread1, values, r),
            },
            Native::GetClass => match class_mirror(before, locals) {
                Err(e) => r == Err::<Step, VmError>(e) && unchanged,
                Ok(mirror) => after == before && left_post(thread0, thread1, seq![mirror], r),
            },
            Native::ObjectFieldOffset => match field_offset_of(before, locals) {
                Err(e) => r == Err::<Step, VmError>(e) && unchanged,
                Ok(offset) => after == before && left_post(
                    thread0,
                    thread1,
                    seq![0u32, cell_of(offset as int)],
                    r,
                ),
            },
            Native::ArrayCopy => match copy_barrier(before.heap.objects(), locals) {
                Some(Ok(t)) => r == Ok::<Step, VmError>(Step::Raise(t)) && unchanged,
                Some(Err(e)) => r == Err::<Step, VmError>(e) && unchanged,
                None => {
                    &&& after.heap.objects() == copied_objects(before.heap.objects(), locals)
                    &&& after.method_area == before.method_area
                    &&& after.loading == before.loading
                    &&& left_post(thread0, thread1, Seq::empty(), r)
                },
            },
            Native::InitClassName => if locals.len() < 1 {
                r == Err::<Step, VmError>(VmError::BadLocal) && unchanged
            } else {
                match class_with_mirror(classes, locals[0]) {
                    None => r == Err::<Step, VmError>(VmError::BadReference) && unchanged,
                    Some(i) => if !before.method_area.is_initialized(string_class_name()) {
                        thread1 == thread0 && awaited(before, after, string_class_name(), r)
                    } else {
                        match string_failure(before) {
                            Some(e) => r == Err::<Step, VmError>(e) && unchanged,
                            None => string_made(before, after, classes[i].spec_name())
                                && left_post(
                                thread0,
                                thread1,
                                seq![before.heap.data@.len() as u32],
                                r,
                            ),
                        }
                    },
                }
            },
            Native::GetPrimitiveClass => if locals.len() < 1 {
                r == Err::<Step, VmError>(VmError::BadLocal) && unchanged
            } else {
                match text_of_string(before, locals[0]) {
                    Err(e) => r == Err::<Step, VmError>(e) && unchanged,
                    Ok(text) => match spec_wrapper(text) {
                        None => r == Err::<Step, VmError>(VmError::NativeMissing) && unchanged,
                        Some(wrapper) => if !before.method_area.is_initialized(wrapper) {
                            thread1 == thread0 && awaited(before, after, wrapper, r)
                        } else {
                            match mirror_of(classes, index_of(classes, wrapper)->0) {
                                None => r == Err::<Step, VmError>(VmError::BadReference)
                                    && unchanged,
                                Some(mirror) => after == before && left_post(
                                    thread0,
                                    thread1,
                                    seq![mirror],
                                    r,
                                ),
                            }
                        },
                    },
                }
            },
            Native::NanoTime => r == Ok::<Step, VmError>(Step::Time) && unchanged,
        },
    }
}

/// The cells that a native method returns that looks at nothing but its
/// local variables.
fn values_of(native: Native, frame: &Frame) -> (r: Result<Vec<u32>, VmError>)
    requires
        plain_values(native, frame.local_variables@) is Some,
    ensures
        match plain_values(native, frame.local_variables@)->0 {
            Ok(values) => r is Ok && r->Ok_0@ == values,
            Err(e) => r == Err::<Vec<u32>, VmError>(e),
        },
{
    let mut values: Vec<u32> = Vec::new();
    match native {
        Native::Constant(v) => {
            values.push(v);
            assert(values@ =~= seq![v]);
        },
        Native::Pass(n) => {
            let n = n as usize;
            if frame.local_variables.len() < n {
                return Err(VmError::BadLocal);
            }
            let mut i: usize = 0;
            while i < n
                invariant
                    i <= n <= frame.local_variables@.len(),
                    values@ == frame.local_variables@.subrange(0, i as int),
                decreases n - i,
            {
                values.push(frame.local_variables[i]);
                i = i + 1;
                assert(values@ =~= frame.local_variables@.subrange(0, i as int));
            }
        },
        _ => {},
    }
    Ok(values)
}

/// Runs the native method of the running frame, which must be a native
/// frame.
pub fn run_native_methods(thread: &mut Thread, global_memory: &mut GlobalMemory) -> (r: Result<
    Step,
    VmError,
>)
    requires
        old(thread).wf(),
        old(global_memory).wf(),
        old(thread).jvm_stack@.len() >= 1,
        !old(thread).is_throwing,
    ensures
        final(thread).wf(),
        final(global_memory).wf(),
        native_post(*old(global_memory), *final(global_memory), *old(thread), *final(thread), r),
        r is Ok && r->Ok_0 is Raise ==> final(thread).jvm_stack@.len() >= 1
            && !final(thread).is_throwing,
        r is Ok ==> r->Ok_0.wf(),
{
    let top: usize = thread.jvm_stack.len() - 1;
    let frame = &thread.jvm_stack[top];
    let native = match lookup_native(frame.class_name.as_str(), frame.method_name.as_str()) {
        Some(n) => n,
        None => {
            return Err(VmError::NativeMissing);
        },
    };
    let mut values: Vec<u32> = Vec::new();
    match native {
        Native::GetClass => {
            let mirror = match get_class(global_memory, frame) {
                Ok(m) => m,
                Err(e) => {
                    return Err(e);
                },
            };
            values.push(mirror);
            assert(values@ =~= seq![mirror]);
        },
        Native::ObjectFieldOffset => {
            let offset = match object_field_offset(global_memory, frame) {
                Ok(o) => o,
                Err(e) => {
                    return Err(e);
                },
            };
            values.push(0);
            values.push(((offset as u64) % 0x1_0000_0000) as u32);
            assert(values@ =~= seq![0u32, cell_of(offset as int)]);
        },
        Native::ArrayCopy => {
            match array_copy(&mut global_memory.heap, frame) {
                Ok(Some(t)) => {
                    return Ok(Step::Raise(t));
                },
                Ok(None) => {},
                Err(e) => {
                    return Err(e);
                },
            }
        },
        Native::InitClassName => {
            if frame.local_variables.len() < 1 {
                return Err(VmError::BadLocal);
            }
            let i = match find_by_mirror(&global_memory.method_area, frame.local_variables[0]) {
                Some(i) => i,
                None => {
                    return Err(VmError::BadReference);
                },
            };
            let name = global_memory.method_area.classes[i].get_name().to_owned();
            match await_class(global_memory, the_string_class().as_str()) {
                Ok(None) => {},
                Ok(Some(step)) => {
                    return Ok(step);
                },
                Err(e) => {
                    return Err(e);
                },
            }
            let reference = match java_string_from_string(global_memory, name.as_str()) {
                Ok(r) => r,
                Err(e) => {
                    return Err(e);
                },
            };
            values.push(reference);
            assert(values@ =~= seq![reference]);
        },
        Native::GetPrimitiveClass => {
            if frame.local_variables.len() < 1 {
                return Err(VmError::BadLocal);
            }
            let text = match string_from_java_string(global_memory, frame.local_variables[0]) {
                Ok(t) => t,
                Err(e) => {
                    return Err(e);
                },
            };
            let wrapper = match wrapper_of(text.as_str()) {
                Some(w) => w,
                None => {
                    return Err(VmError::NativeMissing);
                },
            };
            match await_class(global_memory, wrapper) {
                Ok(None) => {},
                Ok(Some(step)) => {
                    return Ok(step);
                },
                Err(e) => {
                    return Err(e);
                },
            }
            let i = match global_memory.method_area.find(wrapper) {
                Some(i) => i,
                None => {
                    return Err(VmError::BadReference);
                },
            };
            match global_memory.method_area.classes[i].get_java_clone() {
                Some(mirror) => {
                    values.push(mirror);
                    assert(values@ =~= seq![mirror]);
                },
                None => {
                    return Err(VmError::BadReference);
                },
            }
        },
        Native::NanoTime => {
            return Ok(Step::Time);
        },
        _ => {
            values = match values_of(native, frame) {
                Ok(v) => v,
                Err(e) => {
                    return Err(e);
                },
            };
        },
    }
    thread.finish_call(&values)
}

/// What telling the time to a thread does: where the running frame is that
/// of `System.nanoTime`, the method returns the time as a `long`; else the
/// call fails with `Unexpected`.
pub open spec fn time_post(thread0: Thread, thread1: Thread, nanos: u64, r: Result<Step, VmError>) -> bool {
    let frame0 = thread0.jvm_stack@.last();
    if thread0.jvm_stack@.len() >= 1 && !thread0.is_throwing && frame0.running_native
        && spec_native(frame0.class_name@, frame0.method_name@) == Some(Native::NanoTime) {
        left_post(thread0, thread1, long_cells(nanos), r)
    } else {
        r == Err::<Step, VmError>(VmError::Unexpected) && thread1 == thread0
    }
}

/// Completes `System.nanoTime` with the time that the host tells.
pub fn complete_time(thread: &mut Thread, nanos: u64) -> (r: Result<Step, VmError>)
    requires
        old(thread).wf(),
    ensures
        final(thread).wf(),
        time_post(*old(thread), *final(thread), nanos, r),
{
    let n = thread.jvm_stack.len();
    if n == 0 || thread.is_throwing {
        return Err(VmError::Unexpected);
    }
    let frame = &thread.jvm_stack[n - 1];
    if !frame.running_native {
        return Err(VmError::Unexpected);
    }
    match lookup_native(frame.class_name.as_str(), frame.method_name.as_str()) {
        Some(Native::NanoTime) => {},
        _ => {
            return Err(VmError::Unexpected);
        },
    }
    let (high, low) = crate::cell::split_long(nanos);
    let mut values: Vec<u32> = Vec::new();
    values.push(high);
    values.push(low);
    assert(values@ =~= long_cells(nanos));
    thread.finish_call(&values)
}

} // verus!
