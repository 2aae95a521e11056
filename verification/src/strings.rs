//! Java strings on the heap: an instance of `java/lang/String` whose field
//! `value` refers to a byte array with the UTF-8 bytes of the text, and
//! whose field `coder` is 1.

use vstd::prelude::*;
use vstd::string::*;
use vstd::utf8::{decode_utf8, encode_utf8, valid_utf8};

use crate::error::VmError;
use crate::heap::ObjectView;
use crate::klass::{instance_index, lemma_index_of, offset_in, Klass};
use crate::memory::{blank_instance, GlobalMemory};
use crate::parse::string_from_utf8;

verus! {

/// The name of the class of strings.
pub open spec fn string_class_name() -> Seq<char> {
    seq!['j', 'a', 'v', 'a', '/', 'l', 'a', 'n', 'g', '/', 'S', 't', 'r', 'i', 'n', 'g']
}

/// The name of the field that refers to the bytes of a string.
pub open spec fn value_field_name() -> Seq<char> {
    seq!['v', 'a', 'l', 'u', 'e']
}

/// The name of the field that says how the bytes of a string are coded.
pub open spec fn coder_field_name() -> Seq<char> {
    seq!['c', 'o', 'd', 'e', 'r']
}

/// The descriptor of a byte array.
pub open spec fn byte_array_descriptor() -> Seq<char> {
    seq!['[', 'B']
}

/// The cells of the array that holds bytes: one cell for each byte.
pub open spec fn cells_of_bytes(bytes: Seq<u8>) -> Seq<u32> {
    Seq::new(bytes.len(), |i: int| bytes[i] as u32)
}

/// The bytes that the cells of a byte array hold: the low 8 bits of each.
pub open spec fn bytes_of_cells(cells: Seq<u32>) -> Seq<u8> {
    Seq::new(cells.len(), |i: int| (cells[i] % 0x100) as u8)
}

/// The position of the class of strings in the method area.
pub open spec fn string_class(classes: Seq<Klass>) -> Option<int> {
    instance_index(classes, string_class_name())
}

/// The offset of a field of the class of strings in a string object.
pub open spec fn string_field(classes: Seq<Klass>, name: Seq<char>) -> Option<nat> {
    match string_class(classes) {
        Some(i) => offset_in(classes[i]->Instance_0.fields@, name),
        None => None,
    }
}

/// Why no string can be made, if none can: the class of strings is not
/// loaded (`ClassNotFound`), it has no field `value` or no field `coder`
/// (`NoSuchField`), or the heap cannot take two more objects
/// (`OutOfMemory`).
pub open spec fn string_failure(gm: GlobalMemory) -> Option<VmError> {
    let classes = gm.method_area.classes@;
    if string_class(classes) is None {
        Some(VmError::ClassNotFound)
    } else if string_field(classes, value_field_name()) is None || string_field(
        classes,
        coder_field_name(),
    ) is None {
        Some(VmError::NoSuchField)
    } else if gm.heap.data@.len() + 1 > u32::MAX {
        Some(VmError::OutOfMemory)
    } else {
        None
    }
}

/// Whether `after` is `before` with a new string for `text`: one more
/// instance of the class of strings, whose `value` refers to the object
/// after it and whose `coder` is 1, and after it a byte array with the
/// UTF-8 bytes of the text.
pub open spec fn string_made(before: GlobalMemory, after: GlobalMemory, text: Seq<char>) -> bool {
    let classes = before.method_area.classes@;
    let n = before.heap.data@.len() as int;
    let blank = blank_instance(classes, string_class(classes)->0);
    &&& after.method_area == before.method_area
    &&& after.loading == before.loading
    &&& after.heap.data@.len() == n + 2
    &&& after.heap.data@.subrange(0, n) == before.heap.data@
    &&& after.heap.data@[n]@ == ObjectView {
        descriptor: blank.descriptor,
        cells: blank.cells.update(
            string_field(classes, value_field_name())->0 as int,
            (n + 1) as u32,
        ).update(string_field(classes, coder_field_name())->0 as int, 1u32),
    }
    &&& after.heap.data@[n + 1]@ == ObjectView {
        descriptor: byte_array_descriptor(),
        cells: cells_of_bytes(encode_utf8(text)),
    }
}

/// The text `java/lang/String`.
pub fn the_string_class() -> (r: String)
    ensures
        r@ == string_class_name(),
{
    proof {
        reveal_strlit("java/lang/String");
    }
    let text = "java/lang/String".to_owned();
    assert(text@ =~= string_class_name());
    text
}

fn the_value_field() -> (r: String)
    ensures
        r@ == value_field_name(),
{
    proof {
        reveal_strlit("value");
    }
    let text = "value".to_owned();
    assert(text@ =~= value_field_name());
    text
}

fn the_coder_field() -> (r: String)
    ensures
        r@ == coder_field_name(),
{
    proof {
        reveal_strlit("coder");
    }
    let text = "coder".to_owned();
    assert(text@ =~= coder_field_name());
    text
}

fn the_byte_array() -> (r: String)
    ensures
        r@ == byte_array_descriptor(),
{
    proof {
        reveal_strlit("[B");
    }
    let text = "[B".to_owned();
    assert(text@ =~= byte_array_descriptor());
    text
}

/// Makes the Java string for `string` and returns the reference to it.
pub fn java_string_from_string(gm: &mut GlobalMemory, string: &str) -> (r: Result<u32, VmError>)
    requires
        old(gm).wf(),
    ensures
        final(gm).wf(),
        match string_failure(*old(gm)) {
            Some(e) => r == Err::<u32, VmError>(e) && *final(gm) == *old(gm),
            None => r == Ok::<u32, VmError>(old(gm).heap.data@.len() as u32) && string_made(
                *old(gm),
                *final(gm),
                string@,
            ),
        },
{
    let class_name = the_string_class();
    proof {
        lemma_index_of(gm.method_area.classes@, string_class_name());
    }
    let i = match gm.method_area.find(class_name.as_str()) {
        Some(i) => i,
        None => {
            return Err(VmError::ClassNotFound);
        },
    };
    let (value_offset, coder_offset) = match &gm.method_area.classes[i] {
        Klass::Instance(k) => {
            assert(k.wf());
            let v = match k.field_offset_with_strings(&class_name, &the_value_field()) {
                Ok(o) => o,
                Err(e) => {
                    return Err(e);
                },
            };
            let c = match k.field_offset_with_strings(&class_name, &the_coder_field()) {
                Ok(o) => o,
                Err(e) => {
                    return Err(e);
                },
            };
            (v, c)
        },
        Klass::Array(_) => {
            return Err(VmError::ClassNotFound);
        },
    };
    if gm.heap.data.len() >= u32::MAX as usize {
        return Err(VmError::OutOfMemory);
    }
    let bytes = string.as_bytes();
    let mut cells: Vec<u32> = Vec::new();
    let mut n: usize = 0;
    while n < bytes.len()
        invariant
            n <= bytes.len(),
            cells@ == cells_of_bytes(bytes@.subrange(0, n as int)),
        decreases bytes.len() - n,
    {
        cells.push(bytes[n] as u32);
        n = n + 1;
        assert(cells@ =~= cells_of_bytes(bytes@.subrange(0, n as int)));
    }
    assert(bytes@.subrange(0, n as int) =~= bytes@);
    let ghost before = *gm;
    let string_reference = match gm.allocate_klass(i) {
        Ok(r) => r,
        Err(e) => {
            return Err(e);
        },
    };
    let array_reference = gm.heap.store(the_byte_array(), cells);
    let object = gm.heap.load_mut(string_reference);
    object.data[value_offset] = array_reference;
    object.data[coder_offset] = 1;
    proof {
        let count = before.heap.data@.len() as int;
        assert(gm.heap.data@.subrange(0, count) =~= before.heap.data@);
    }
    Ok(string_reference)
}

/// The text of the Java string that a reference leads to; `None` where
/// decoding fails.
///
/// `BadReference`: the reference, or the one in the field `value`, leads to
/// no object, or the object is too small to have the field.
/// `ClassNotFound`, `NoSuchField`: the class of strings is not loaded, or
/// has no field `value`. `Resolution`: the bytes are not valid UTF-8.
pub open spec fn text_of_string(gm: GlobalMemory, reference: u32) -> Result<Seq<char>, VmError> {
    let classes = gm.method_area.classes@;
    let objects = gm.heap.objects();
    if reference >= objects.len() {
        Err(VmError::BadReference)
    } else if string_class(classes) is None {
        Err(VmError::ClassNotFound)
    } else {
        match string_field(classes, value_field_name()) {
            None => Err(VmError::NoSuchField),
            Some(offset) => if offset >= objects[reference as int].cells.len() {
                Err(VmError::BadReference)
            } else {
                let array = objects[reference as int].cells[offset as int];
                if array >= objects.len() {
                    Err(VmError::BadReference)
                } else {
                    let bytes = bytes_of_cells(objects[array as int].cells);
                    if valid_utf8(bytes) {
                        Ok(decode_utf8(bytes))
                    } else {
                        Err(VmError::Resolution)
                    }
                }
            },
        }
    }
}

/// Reads the text of the Java string that `objectref` leads to.
pub fn string_from_java_string(gm: &GlobalMemory, objectref: u32) -> (r: Result<String, VmError>)
    requires
        gm.wf(),
    ensures
        match text_of_string(*gm, objectref) {
            Ok(text) => r is Ok && r->Ok_0@ == text,
            Err(e) => r == Err::<String, VmError>(e),
        },
{
    let object = match gm.heap.load(objectref) {
        Some(o) => o,
        None => {
            return Err(VmError::BadReference);
        },
    };
    assert(gm.heap.objects()[objectref as int] == object@);
    let class_name = the_string_class();
    proof {
        lemma_index_of(gm.method_area.classes@, string_class_name());
    }
    let i = match gm.method_area.find(class_name.as_str()) {
        Some(i) => i,
        None => {
            return Err(VmError::ClassNotFound);
        },
    };
    let offset = match &gm.method_area.classes[i] {
        Klass::Instance(k) => {
            assert(k.wf());
            match k.field_offset_with_strings(&class_name, &the_value_field()) {
                Ok(o) => o,
                Err(e) => {
                    return Err(e);
                },
            }
        },
        Klass::Array(_) => {
            return Err(VmError::ClassNotFound);
        },
    };
    if offset >= object.data.len() {
        return Err(VmError::BadReference);
    }
    let array = match gm.heap.load(object.data[offset]) {
        Some(a) => a,
        None => {
            return Err(VmError::BadReference);
        },
    };
    assert(gm.heap.objects()[object.data@[offset as int] as int] == array@);
    let mut bytes: Vec<u8> = Vec::new();
    let mut n: usize = 0;
    while n < array.data.len()
        invariant
            n <= array.data.len(),
            bytes@ == bytes_of_cells(array.data@.subrange(0, n as int)),
        decreases array.data.len() - n,
    {
        bytes.push((array.data[n] % 0x100) as u8);
        n = n + 1;
        assert(bytes@ =~= bytes_of_cells(array.data@.subrange(0, n as int)));
    }
    assert(array.data@.subrange(0, n as int) =~= array.data@);
    match string_from_utf8(bytes) {
        Some(text) => Ok(text),
        None => Err(VmError::Resolution),
    }
}

} // verus!
