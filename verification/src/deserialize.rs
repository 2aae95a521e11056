//! The class-file decoder: from the bytes of a class file to its raw
//! structure, with no look at what the constants mean.
//!
//! The format is written down once, as the spec functions `spec_*` from bytes
//! to views; the decoding functions are proved to compute exactly that.

use vstd::prelude::*;

use crate::error::VmError;
use crate::reader::{be16, be32, read_bytes, read_u16, read_u32, read_u8};

verus! {

/// A class file as it stands in the bytes.
#[derive(Debug)]
pub struct DeserializedClassFile {
    pub magic: u32,
    pub minor_version: u16,
    pub major_version: u16,
    pub constant_pool_count: u16,
    pub constant_pool: Vec<CPInfo>,
    pub access_flags: u16,
    pub this_class: u16,
    pub super_class: u16,
    pub interfaces_count: u16,
    pub interfaces: Vec<u16>,
    pub fields_count: u16,
    pub fields: Vec<FieldInfo>,
    pub methods_count: u16,
    pub methods: Vec<MethodInfo>,
    pub attributes_count: u16,
    pub attributes: Vec<AttributeInfo>,
}

/// One slot of the raw constant pool. Slot `i` of the vector is the constant
/// with index `i + 1`.
#[derive(Debug)]
#[allow(inconsistent_fields)]
pub enum CPInfo {
    ConstantClassInfo { tag: u8, name_index: u16 },
    ConstantMethodRefInfo { tag: u8, class_index: u16, name_and_type_index: u16 },
    ConstantFieldRefInfo { tag: u8, class_index: u16, name_and_type_index: u16 },
    ConstantInterfaceMethodRefInfo { tag: u8, class_index: u16, name_and_type_index: u16 },
    ConstantStringInfo { tag: u8, string_index: u16 },
    ConstantIntegerInfo { tag: u8, bytes: u32 },
    ConstantFloatInfo { tag: u8, bytes: u32 },
    ConstantLongInfo { tag: u8, high_bytes: u32, low_bytes: u32 },
    ConstantDoubleInfo { tag: u8, high_bytes: u32, low_bytes: u32 },
    ConstantNameAndTypeInfo { tag: u8, name_index: u16, descriptor_index: u16 },
    ConstantUtf8Info { tag: u8, length: u16, bytes: Vec<u8> },
    ConstantMethodHandleInfo { tag: u8, reference_kind: u8, reference_index: u16 },
    ConstantMethodTypeInfo { tag: u8, descriptor_index: u16 },
    ConstantInvokeDynamicInfo { tag: u8, bootstrap_method_attr_index: u16, name_and_type_index: u16 },
    /// The slot after a long or double constant, which no index may use.
    Unusable,
}

/// A field as it stands in the class file.
#[derive(Debug)]
pub struct FieldInfo {
    pub access_flags: u16,
    pub name_index: u16,
    pub descriptor_index: u16,
    pub attributes_count: u16,
    pub attributes: Vec<AttributeInfo>,
}

/// An attribute as it stands in the class file: the index of its name, and
/// its bytes.
#[derive(Debug)]
pub struct AttributeInfo {
    pub attribute_name_index: u16,
    pub attribute_length: u32,
    pub info: Vec<u8>,
}

/// A method as it stands in the class file.
#[derive(Debug)]
pub struct MethodInfo {
    pub access_flags: u16,
    pub name_index: u16,
    pub descriptor_index: u16,
    pub attributes_count: u16,
    pub attributes: Vec<AttributeInfo>,
}

/// The mathematical content of a [`CPInfo`].
#[allow(inconsistent_fields)]
pub enum CPInfoView {
    Class { name_index: u16 },
    MethodRef { class_index: u16, name_and_type_index: u16 },
    FieldRef { class_index: u16, name_and_type_index: u16 },
    InterfaceMethodRef { class_index: u16, name_and_type_index: u16 },
    String { string_index: u16 },
    Integer { bytes: u32 },
    Float { bytes: u32 },
    Long { high_bytes: u32, low_bytes: u32 },
    Double { high_bytes: u32, low_bytes: u32 },
    NameAndType { name_index: u16, descriptor_index: u16 },
    Utf8 { bytes: Seq<u8> },
    MethodHandle { reference_kind: u8, reference_index: u16 },
    MethodType { descriptor_index: u16 },
    InvokeDynamic { bootstrap_method_attr_index: u16, name_and_type_index: u16 },
    Unusable,
}

/// The mathematical content of an [`AttributeInfo`].
pub struct AttributeView {
    pub attribute_name_index: u16,
    pub info: Seq<u8>,
}

/// The mathematical content of a [`FieldInfo`] or a [`MethodInfo`].
pub struct MemberView {
    pub access_flags: u16,
    pub name_index: u16,
    pub descriptor_index: u16,
    pub attributes: Seq<AttributeView>,
}

/// The mathematical content of a [`DeserializedClassFile`].
pub struct ClassFileView {
    pub minor_version: u16,
    pub major_version: u16,
    pub constant_pool: Seq<CPInfoView>,
    pub access_flags: u16,
    pub this_class: u16,
    pub super_class: u16,
    pub interfaces: Seq<u16>,
    pub fields: Seq<MemberView>,
    pub methods: Seq<MemberView>,
    pub attributes: Seq<AttributeView>,
}

impl View for CPInfo {
    type V = CPInfoView;

    open spec fn view(&self) -> CPInfoView {
        match *self {
            CPInfo::ConstantClassInfo { name_index, .. } => CPInfoView::Class { name_index },
            CPInfo::ConstantMethodRefInfo { class_index, name_and_type_index, .. } => {
                CPInfoView::MethodRef { class_index, name_and_type_index }
            },
            CPInfo::ConstantFieldRefInfo { class_index, name_and_type_index, .. } => {
                CPInfoView::FieldRef { class_index, name_and_type_index }
            },
            CPInfo::ConstantInterfaceMethodRefInfo { class_index, name_and_type_index, .. } => {
                CPInfoView::InterfaceMethodRef { class_index, name_and_type_index }
            },
            CPInfo::ConstantStringInfo { string_index, .. } => CPInfoView::String { string_index },
            CPInfo::ConstantIntegerInfo { bytes, .. } => CPInfoView::Integer { bytes },
            CPInfo::ConstantFloatInfo { bytes, .. } => CPInfoView::Float { bytes },
            CPInfo::ConstantLongInfo { high_bytes, low_bytes, .. } => {
                CPInfoView::Long { high_bytes, low_bytes }
            },
            CPInfo::ConstantDoubleInfo { high_bytes, low_bytes, .. } => {
                CPInfoView::Double { high_bytes, low_bytes }
            },
            CPInfo::ConstantNameAndTypeInfo { name_index, descriptor_index, .. } => {
                CPInfoView::NameAndType { name_index, descriptor_index }
            },
            CPInfo::ConstantUtf8Info { bytes, .. } => CPInfoView::Utf8 { bytes: bytes@ },
            CPInfo::ConstantMethodHandleInfo { reference_kind, reference_index, .. } => {
                CPInfoView::MethodHandle { reference_kind, reference_index }
            },
            CPInfo::ConstantMethodTypeInfo { descriptor_index, .. } => {
                CPInfoView::MethodType { descriptor_index }
            },
            CPInfo::ConstantInvokeDynamicInfo {
                bootstrap_method_attr_index,
                name_and_type_index,
                ..
            } => CPInfoView::InvokeDynamic { bootstrap_method_attr_index, name_and_type_index },
            CPInfo::Unusable => CPInfoView::Unusable,
        }
    }
}

impl CPInfo {
    /// The tag byte of the entry is the one that the format gives its kind,
    /// and the recorded length of a Utf8 entry is that of its bytes.
    pub open spec fn wf(&self) -> bool {
        match *self {
            CPInfo::ConstantClassInfo { tag, .. } => tag == 7,
            CPInfo::ConstantMethodRefInfo { tag, .. } => tag == 10,
            CPInfo::ConstantFieldRefInfo { tag, .. } => tag == 9,
            CPInfo::ConstantInterfaceMethodRefInfo { tag, .. } => tag == 11,
            CPInfo::ConstantStringInfo { tag, .. } => tag == 8,
            CPInfo::ConstantIntegerInfo { tag, .. } => tag == 3,
            CPInfo::ConstantFloatInfo { tag, .. } => tag == 4,
            CPInfo::ConstantLongInfo { tag, .. } => tag == 5,
            CPInfo::ConstantDoubleInfo { tag, .. } => tag == 6,
            CPInfo::ConstantNameAndTypeInfo { tag, .. } => tag == 12,
            CPInfo::ConstantUtf8Info { tag, length, bytes } => tag == 1 && length == bytes@.len(),
            CPInfo::ConstantMethodHandleInfo { tag, .. } => tag == 15,
            CPInfo::ConstantMethodTypeInfo { tag, .. } => tag == 16,
            CPInfo::ConstantInvokeDynamicInfo { tag, .. } => tag == 18,
            CPInfo::Unusable => true,
        }
    }
}

impl View for AttributeInfo {
    type V = AttributeView;

    open spec fn view(&self) -> AttributeView {
        AttributeView { attribute_name_index: self.attribute_name_index, info: self.info@ }
    }
}

impl View for FieldInfo {
    type V = MemberView;

    open spec fn view(&self) -> MemberView {
        MemberView {
            access_flags: self.access_flags,
            name_index: self.name_index,
            descriptor_index: self.descriptor_index,
            attributes: views(self.attributes@),
        }
    }
}

impl View for MethodInfo {
    type V = MemberView;

    open spec fn view(&self) -> MemberView {
        MemberView {
            access_flags: self.access_flags,
            name_index: self.name_index,
            descriptor_index: self.descriptor_index,
            attributes: views(self.attributes@),
        }
    }
}

impl View for DeserializedClassFile {
    type V = ClassFileView;

    open spec fn view(&self) -> ClassFileView {
        ClassFileView {
            minor_version: self.minor_version,
            major_version: self.major_version,
            constant_pool: views(self.constant_pool@),
            access_flags: self.access_flags,
            this_class: self.this_class,
            super_class: self.super_class,
            interfaces: self.interfaces@,
            fields: views(self.fields@),
            methods: views(self.methods@),
            attributes: views(self.attributes@),
        }
    }
}

impl AttributeInfo {
    /// The length that the attribute gives is that of its bytes.
    pub open spec fn wf(&self) -> bool {
        self.attribute_length == self.info@.len()
    }
}

/// Whether each attribute of a table gives the length of its bytes.
pub open spec fn attributes_wf(attributes: Seq<AttributeInfo>) -> bool {
    forall|i: int| 0 <= i < attributes.len() ==> (#[trigger] attributes[i]).wf()
}

impl FieldInfo {
    /// The count is that of the attributes, and each attribute gives the
    /// length of its bytes.
    pub open spec fn wf(&self) -> bool {
        self.attributes_count == self.attributes@.len() && attributes_wf(self.attributes@)
    }
}

impl MethodInfo {
    /// The count is that of the attributes, and each attribute gives the
    /// length of its bytes.
    pub open spec fn wf(&self) -> bool {
        self.attributes_count == self.attributes@.len() && attributes_wf(self.attributes@)
    }
}

impl DeserializedClassFile {
    /// The counts are those of the tables, down to the attributes of each
    /// field and method; each attribute gives the length of its bytes; and
    /// the magic number is the format's.
    pub open spec fn wf(&self) -> bool {
        &&& self.magic == 0xcafe_babe
        &&& self.constant_pool_count == self.constant_pool@.len() + 1
        &&& self.interfaces_count == self.interfaces@.len()
        &&& self.fields_count == self.fields@.len()
        &&& self.methods_count == self.methods@.len()
        &&& self.attributes_count == self.attributes@.len()
        &&& forall|i: int| 0 <= i < self.constant_pool@.len() ==> (#[trigger] self.constant_pool@[i]).wf()
        &&& forall|i: int| 0 <= i < self.fields@.len() ==> (#[trigger] self.fields@[i]).wf()
        &&& forall|i: int| 0 <= i < self.methods@.len() ==> (#[trigger] self.methods@[i]).wf()
        &&& attributes_wf(self.attributes@)
    }
}

/// The views of the items of a sequence.
pub open spec fn views<T: View>(items: Seq<T>) -> Seq<T::V> {
    Seq::new(items.len(), |i: int| items[i]@)
}

/// Pushing an item onto a sequence pushes its view onto the views.
pub proof fn lemma_views_push<T: View>(items: Seq<T>, item: T)
    ensures
        views(items.push(item)) == views(items).push(item@),
{
    assert(views(items.push(item)) =~= views(items).push(item@));
}

/// The attribute that starts at `at`, and where it ends; `None` where it
/// overruns the buffer.
pub open spec fn spec_attribute(s: Seq<u8>, at: int) -> Option<(AttributeView, int)> {
    if at + 6 <= s.len() && at + 6 + be32(s, at + 2) <= s.len() {
        Some(
            (
                AttributeView {
                    attribute_name_index: be16(s, at) as u16,
                    info: s.subrange(at + 6, at + 6 + be32(s, at + 2)),
                },
                at + 6 + be32(s, at + 2),
            ),
        )
    } else {
        None
    }
}

/// The `count` attributes that start at `at`, and where they end; `None`
/// where `at` is past the end of the buffer or an attribute overruns it.
pub open spec fn spec_attributes(s: Seq<u8>, at: int, count: nat) -> Option<
    (Seq<AttributeView>, int),
>
    decreases count,
{
    if at > s.len() {
        None
    } else if count == 0 {
        Some((Seq::empty(), at))
    } else {
        match spec_attribute(s, at) {
            None => None,
            Some((first, next)) => match spec_attributes(s, next, (count - 1) as nat) {
                None => None,
                Some((rest, end)) => Some((seq![first] + rest, end)),
            },
        }
    }
}

/// The field or method that starts at `at`, and where it ends.
pub open spec fn spec_member(s: Seq<u8>, at: int) -> Option<(MemberView, int)> {
    if at + 8 <= s.len() {
        match spec_attributes(s, at + 8, be16(s, at + 6) as nat) {
            None => None,
            Some((attributes, end)) => Some(
                (
                    MemberView {
                        access_flags: be16(s, at) as u16,
                        name_index: be16(s, at + 2) as u16,
                        descriptor_index: be16(s, at + 4) as u16,
                        attributes,
                    },
                    end,
                ),
            ),
        }
    } else {
        None
    }
}

/// The `count` fields or methods that start at `at`, and where they end.
pub open spec fn spec_members(s: Seq<u8>, at: int, count: nat) -> Option<(Seq<MemberView>, int)>
    decreases count,
{
    if count == 0 {
        Some((Seq::empty(), at))
    } else {
        match spec_member(s, at) {
            None => None,
            Some((first, next)) => match spec_members(s, next, (count - 1) as nat) {
                None => None,
                Some((rest, end)) => Some((seq![first] + rest, end)),
            },
        }
    }
}

/// The constant-pool entry that starts at `at`, and where it ends; `None`
/// where the tag is unknown or the entry overruns the buffer.
pub open spec fn spec_constant(s: Seq<u8>, at: int) -> Option<(CPInfoView, int)> {
    if at >= s.len() {
        None
    } else {
        let tag = s[at];
        if tag == 1 {
            if at + 3 <= s.len() && at + 3 + be16(s, at + 1) <= s.len() {
                Some(
                    (
                        CPInfoView::Utf8 { bytes: s.subrange(at + 3, at + 3 + be16(s, at + 1)) },
                        at + 3 + be16(s, at + 1),
                    ),
                )
            } else {
                None
            }
        } else if tag == 3 || tag == 4 {
            if at + 5 <= s.len() {
                let bytes = be32(s, at + 1) as u32;
                Some(
                    (
                        if tag == 3 {
                            CPInfoView::Integer { bytes }
                        } else {
                            CPInfoView::Float { bytes }
                        },
                        at + 5,
                    ),
                )
            } else {
                None
            }
        } else if tag == 5 || tag == 6 {
            if at + 9 <= s.len() {
                let high_bytes = be32(s, at + 1) as u32;
                let low_bytes = be32(s, at + 5) as u32;
                Some(
                    (
                        if tag == 5 {
                            CPInfoView::Long { high_bytes, low_bytes }
                        } else {
                            CPInfoView::Double { high_bytes, low_bytes }
                        },
                        at + 9,
                    ),
                )
            } else {
                None
            }
        } else if tag == 7 || tag == 8 || tag == 16 {
            if at + 3 <= s.len() {
                let index = be16(s, at + 1) as u16;
                Some(
                    (
                        if tag == 7 {
                            CPInfoView::Class { name_index: index }
                        } else if tag == 8 {
                            CPInfoView::String { string_index: index }
                        } else {
                            CPInfoView::MethodType { descriptor_index: index }
                        },
                        at + 3,
                    ),
                )
            } else {
                None
            }
        } else if tag == 9 || tag == 10 || tag == 11 || tag == 12 || tag == 18 {
            if at + 5 <= s.len() {
                let first = be16(s, at + 1) as u16;
                let second = be16(s, at + 3) as u16;
                Some(
                    (
                        if tag == 9 {
                            CPInfoView::FieldRef { class_index: first, name_and_type_index: second }
                        } else if tag == 10 {
                            CPInfoView::MethodRef { class_index: first, name_and_type_index: second }
                        } else if tag == 11 {
                            CPInfoView::InterfaceMethodRef {
                                class_index: first,
                                name_and_type_index: second,
                            }
                        } else if tag == 12 {
                            CPInfoView::NameAndType { name_index: first, descriptor_index: second }
                        } else {
                            CPInfoView::InvokeDynamic {
                                bootstrap_method_attr_index: first,
                                name_and_type_index: second,
                            }
                        },
                        at + 5,
                    ),
                )
            } else {
                None
            }
        } else if tag == 15 {
            if at + 4 <= s.len() {
                Some(
                    (
                        CPInfoView::MethodHandle {
                            reference_kind: s[at + 1],
                            reference_index: be16(s, at + 2) as u16,
                        },
                        at + 4,
                    ),
                )
            } else {
                None
            }
        } else {
            None
        }
    }
}

/// Whether a constant takes two slots of the pool.
pub open spec fn takes_two_slots(c: CPInfoView) -> bool {
    c is Long || c is Double
}

/// The entries that fill `slots` slots of the pool, starting at `at`, and
/// where they end. A long or double constant fills two slots, the second of
/// them unusable; one in the last slot is refused.
pub open spec fn spec_pool(s: Seq<u8>, at: int, slots: nat) -> Option<(Seq<CPInfoView>, int)>
    decreases slots,
{
    if slots == 0 {
        Some((Seq::empty(), at))
    } else {
        match spec_constant(s, at) {
            None => None,
            Some((first, next)) => if takes_two_slots(first) {
                if slots < 2 {
                    None
                } else {
                    match spec_pool(s, next, (slots - 2) as nat) {
                        None => None,
                        Some((rest, end)) => Some((seq![first, CPInfoView::Unusable] + rest, end)),
                    }
                }
            } else {
                match spec_pool(s, next, (slots - 1) as nat) {
                    None => None,
                    Some((rest, end)) => Some((seq![first] + rest, end)),
                }
            },
        }
    }
}

/// The `count` interface indices that start at `at`.
pub open spec fn spec_interfaces(s: Seq<u8>, at: int, count: nat) -> Seq<u16> {
    Seq::new(count, |i: int| be16(s, at + 2 * i) as u16)
}

/// The class file that the bytes spell; `None` where they spell none: the
/// magic number is wrong, the major version is above 55, the constant pool
/// count is 0, a tag is unknown, or a table overruns the buffer.
pub open spec fn spec_class_file(s: Seq<u8>) -> Option<ClassFileView> {
    if s.len() < 10 || be32(s, 0) != 0xcafe_babe || be16(s, 6) > 55 || be16(s, 8) == 0 {
        None
    } else {
        match spec_pool(s, 10, (be16(s, 8) - 1) as nat) {
            None => None,
            Some((constant_pool, p1)) => if p1 + 8 > s.len() || p1 + 8 + 2 * be16(s, p1 + 6)
                > s.len() {
                None
            } else {
                let p2 = p1 + 8 + 2 * be16(s, p1 + 6);
                if p2 + 2 > s.len() {
                    None
                } else {
                    match spec_members(s, p2 + 2, be16(s, p2) as nat) {
                        None => None,
                        Some((fields, p3)) => if p3 + 2 > s.len() {
                            None
                        } else {
                            match spec_members(s, p3 + 2, be16(s, p3) as nat) {
                                None => None,
                                Some((methods, p4)) => if p4 + 2 > s.len() {
                                    None
                                } else {
                                    match spec_attributes(s, p4 + 2, be16(s, p4) as nat) {
                                        None => None,
                                        Some((attributes, _)) => Some(
                                            ClassFileView {
                                                minor_version: be16(s, 4) as u16,
                                                major_version: be16(s, 6) as u16,
                                                constant_pool,
                                                access_flags: be16(s, p1) as u16,
                                                this_class: be16(s, p1 + 2) as u16,
                                                super_class: be16(s, p1 + 4) as u16,
                                                interfaces: spec_interfaces(
                                                    s,
                                                    p1 + 8,
                                                    be16(s, p1 + 6) as nat,
                                                ),
                                                fields,
                                                methods,
                                                attributes,
                                            },
                                        ),
                                    }
                                },
                            }
                        },
                    }
                }
            },
        }
    }
}

/// Decodes the constant-pool entry that starts at `at`; returns it with the
/// position after it.
pub fn deserialize_constant_pool(buf: &[u8], at: usize) -> (r: Result<(CPInfo, usize), VmError>)
    ensures
        match spec_constant(buf@, at as int) {
            Some((c, end)) => r is Ok && r->Ok_0.0@ == c && r->Ok_0.0.wf() && r->Ok_0.1 == end,
            None => r == Err::<(CPInfo, usize), VmError>(VmError::Format),
        },
{
    if at >= buf.len() {
        return Err(VmError::Format);
    }
    let tag = buf[at];
    if tag == 1 {
        let length = match read_u16(buf, at + 1) {
            Some(l) => l,
            None => { return Err(VmError::Format); },
        };
        let bytes = match read_bytes(buf, at + 3, length as usize) {
            Some(b) => b,
            None => { return Err(VmError::Format); },
        };
        Ok((CPInfo::ConstantUtf8Info { tag, length, bytes }, at + 3 + length as usize))
    } else if tag == 3 || tag == 4 {
        let bytes = match read_u32(buf, at + 1) {
            Some(b) => b,
            None => { return Err(VmError::Format); },
        };
        if tag == 3 {
            Ok((CPInfo::ConstantIntegerInfo { tag, bytes }, at + 5))
        } else {
            Ok((CPInfo::ConstantFloatInfo { tag, bytes }, at + 5))
        }
    } else if tag == 5 || tag == 6 {
        if buf.len() - at < 9 {
            return Err(VmError::Format);
        }
        let high_bytes = match read_u32(buf, at + 1) {
            Some(b) => b,
            None => { return Err(VmError::Format); },
        };
        let low_bytes = match read_u32(buf, at + 5) {
            Some(b) => b,
            None => { return Err(VmError::Format); },
        };
        if tag == 5 {
            Ok((CPInfo::ConstantLongInfo { tag, high_bytes, low_bytes }, at + 9))
        } else {
            Ok((CPInfo::ConstantDoubleInfo { tag, high_bytes, low_bytes }, at + 9))
        }
    } else if tag == 7 || tag == 8 || tag == 16 {
        let index = match read_u16(buf, at + 1) {
            Some(i) => i,
            None => { return Err(VmError::Format); },
        };
        if tag == 7 {
            Ok((CPInfo::ConstantClassInfo { tag, name_index: index }, at + 3))
        } else if tag == 8 {
            Ok((CPInfo::ConstantStringInfo { tag, string_index: index }, at + 3))
        } else {
            Ok((CPInfo::ConstantMethodTypeInfo { tag, descriptor_index: index }, at + 3))
        }
    } else if tag == 9 || tag == 10 || tag == 11 || tag == 12 || tag == 18 {
        if buf.len() - at < 5 {
            return Err(VmError::Format);
        }
        let first = match read_u16(buf, at + 1) {
            Some(i) => i,
            None => { return Err(VmError::Format); },
        };
        let second = match read_u16(buf, at + 3) {
            Some(i) => i,
            None => { return Err(VmError::Format); },
        };
        if tag == 9 {
            Ok(
                (
                    CPInfo::ConstantFieldRefInfo {
                        tag,
                        class_index: first,
                        name_and_type_index: second,
                    },
                    at + 5,
                ),
            )
        } else if tag == 10 {
            Ok(
                (
                    CPInfo::ConstantMethodRefInfo {
                        tag,
                        class_index: first,
                        name_and_type_index: second,
                    },
                    at + 5,
                ),
            )
        } else if tag == 11 {
            Ok(
                (
                    CPInfo::ConstantInterfaceMethodRefInfo {
                        tag,
                        class_index: first,
                        name_and_type_index: second,
                    },
                    at + 5,
                ),
            )
        } else if tag == 12 {
            Ok(
                (
                    CPInfo::ConstantNameAndTypeInfo {
                        tag,
                        name_index: first,
                        descriptor_index: second,
                    },
                    at + 5,
                ),
            )
        } else {
            Ok(
                (
                    CPInfo::ConstantInvokeDynamicInfo {
                        tag,
                        bootstrap_method_attr_index: first,
                        name_and_type_index: second,
                    },
                    at + 5,
                ),
            )
        }
    } else if tag == 15 {
        if buf.len() - at < 4 {
            return Err(VmError::Format);
        }
        let reference_kind = match read_u8(buf, at + 1) {
            Some(k) => k,
            None => { return Err(VmError::Format); },
        };
        let reference_index = match read_u16(buf, at + 2) {
            Some(i) => i,
            None => { return Err(VmError::Format); },
        };
        Ok((CPInfo::ConstantMethodHandleInfo { tag, reference_kind, reference_index }, at + 4))
    } else {
        Err(VmError::Format)
    }
}

/// Decodes the entries that fill `slots` slots of the constant pool.
fn deserialize_pool(buf: &[u8], at: usize, slots: u16) -> (r: Result<(Vec<CPInfo>, usize), VmError>)
    requires
        at <= buf@.len(),
    ensures
        match spec_pool(buf@, at as int, slots as nat) {
            Some((pool, end)) => {
                &&& r is Ok
                &&& views(r->Ok_0.0@) == pool
                &&& r->Ok_0.0@.len() == slots
                &&& r->Ok_0.1 == end
                &&& end <= buf@.len()
                &&& forall|i: int| 0 <= i < r->Ok_0.0@.len() ==> (#[trigger] r->Ok_0.0@[i]).wf()
            },
            None => r == Err::<(Vec<CPInfo>, usize), VmError>(VmError::Format),
        },
{
    let mut pool: Vec<CPInfo> = Vec::new();
    let mut pos: usize = at;
    let mut filled: u16 = 0;
    while filled < slots
        invariant
            filled <= slots,
            pos <= buf@.len(),
            pool@.len() == filled,
            forall|i: int| 0 <= i < pool@.len() ==> (#[trigger] pool@[i]).wf(),
            spec_pool(buf@, at as int, slots as nat) == match spec_pool(
                buf@,
                pos as int,
                (slots - filled) as nat,
            ) {
                Some((rest, end)) => Some((views(pool@) + rest, end)),
                None => None,
            },
        decreases slots - filled,
    {
        let ghost before = pool@;
        let ghost here = pos as int;
        let (entry, next) = match deserialize_constant_pool(buf, pos) {
            Ok(pair) => pair,
            Err(_) => { return Err(VmError::Format); },
        };
        let wide = match entry {
            CPInfo::ConstantLongInfo { .. } => true,
            CPInfo::ConstantDoubleInfo { .. } => true,
            _ => false,
        };
        assert(wide == takes_two_slots(entry@));
        let ghost first = entry@;
        if wide {
            if slots - filled < 2 {
                return Err(VmError::Format);
            }
            pool.push(entry);
            pool.push(CPInfo::Unusable);
            filled = filled + 2;
            proof {
                lemma_views_push(before, entry);
                lemma_views_push(before.push(entry), CPInfo::Unusable);
                match spec_pool(buf@, next as int, (slots - filled) as nat) {
                    Some((rest, end)) => {
                        assert(views(pool@) + rest =~= views(before) + (seq![
                            first,
                            CPInfoView::Unusable,
                        ] + rest));
                    },
                    None => {},
                }
            }
        } else {
            pool.push(entry);
            filled = filled + 1;
            proof {
                lemma_views_push(before, entry);
                match spec_pool(buf@, next as int, (slots - filled) as nat) {
                    Some((rest, end)) => {
                        assert(views(pool@) + rest =~= views(before) + (seq![first] + rest));
                    },
                    None => {},
                }
            }
        }
        pos = next;
    }
    proof {
        assert(views(pool@) + Seq::<CPInfoView>::empty() =~= views(pool@));
    }
    Ok((pool, pos))
}

/// Decodes the `attributes_count` attributes that start at `at`; returns
/// them with the position after the last. Each attribute gives the length
/// of its bytes. Fails with `Format` where `at` is past the end of the
/// buffer or an attribute overruns it.
pub fn deserialize_attributes(buf: &[u8], at: usize, attributes_count: u16) -> (r: Result<
    (Vec<AttributeInfo>, usize),
    VmError,
>)
    ensures
        match spec_attributes(buf@, at as int, attributes_count as nat) {
            Some((attributes, end)) => {
                &&& r is Ok
                &&& views(r->Ok_0.0@) == attributes
                &&& r->Ok_0.0@.len() == attributes_count
                &&& attributes_wf(r->Ok_0.0@)
                &&& r->Ok_0.1 == end
                &&& end <= buf@.len()
            },
            None => r == Err::<(Vec<AttributeInfo>, usize), VmError>(VmError::Format),
        },
{
    if at > buf.len() {
        return Err(VmError::Format);
    }
    let mut attributes: Vec<AttributeInfo> = Vec::new();
    let mut pos: usize = at;
    let mut done: u16 = 0;
    while done < attributes_count
        invariant
            done <= attributes_count,
            pos <= buf@.len(),
            attributes@.len() == done,
            attributes_wf(attributes@),
            spec_attributes(buf@, at as int, attributes_count as nat) == match spec_attributes(
                buf@,
                pos as int,
                (attributes_count - done) as nat,
            ) {
                Some((rest, end)) => Some((views(attributes@) + rest, end)),
                None => None,
            },
        decreases attributes_count - done,
    {
        let ghost before = attributes@;
        if buf.len() - pos < 6 {
            return Err(VmError::Format);
        }
        let attribute_name_index = match read_u16(buf, pos) {
            Some(i) => i,
            None => { return Err(VmError::Format); },
        };
        let attribute_length = match read_u32(buf, pos + 2) {
            Some(l) => l,
            None => { return Err(VmError::Format); },
        };
        if attribute_length as u64 > (buf.len() - pos - 6) as u64 {
            return Err(VmError::Format);
        }
        let info = match read_bytes(buf, pos + 6, attribute_length as usize) {
            Some(b) => b,
            None => { return Err(VmError::Format); },
        };
        let item = AttributeInfo { attribute_name_index, attribute_length, info };
        let ghost first = item@;
        let next: usize = pos + 6 + attribute_length as usize;
        attributes.push(item);
        done = done + 1;
        proof {
            lemma_views_push(before, item);
            match spec_attributes(buf@, next as int, (attributes_count - done) as nat) {
                Some((rest, end)) => {
                    assert(views(attributes@) + rest =~= views(before) + (seq![first] + rest));
                },
                None => {},
            }
        }
        pos = next;
    }
    proof {
        assert(views(attributes@) + Seq::<AttributeView>::empty() =~= views(attributes@));
    }
    Ok((attributes, pos))
}

/// The fixed part of a field or method, with its attributes.
struct RawMember {
    access_flags: u16,
    name_index: u16,
    descriptor_index: u16,
    attributes_count: u16,
    attributes: Vec<AttributeInfo>,
}

impl View for RawMember {
    type V = MemberView;

    closed spec fn view(&self) -> MemberView {
        MemberView {
            access_flags: self.access_flags,
            name_index: self.name_index,
            descriptor_index: self.descriptor_index,
            attributes: views(self.attributes@),
        }
    }
}

/// Decodes the field or method that starts at `at`.
fn deserialize_member(buf: &[u8], at: usize) -> (r: Result<(RawMember, usize), VmError>)
    requires
        at <= buf@.len(),
    ensures
        match spec_member(buf@, at as int) {
            Some((member, end)) => {
                &&& r is Ok
                &&& r->Ok_0.0@ == member
                &&& r->Ok_0.0.attributes_count == r->Ok_0.0.attributes@.len()
                &&& attributes_wf(r->Ok_0.0.attributes@)
                &&& r->Ok_0.1 == end
                &&& end <= buf@.len()
            },
            None => r == Err::<(RawMember, usize), VmError>(VmError::Format),
        },
{
    if buf.len() - at < 8 {
        return Err(VmError::Format);
    }
    let access_flags = match read_u16(buf, at) {
        Some(v) => v,
        None => { return Err(VmError::Format); },
    };
    let name_index = match read_u16(buf, at + 2) {
        Some(v) => v,
        None => { return Err(VmError::Format); },
    };
    let descriptor_index = match read_u16(buf, at + 4) {
        Some(v) => v,
        None => { return Err(VmError::Format); },
    };
    let attributes_count = match read_u16(buf, at + 6) {
        Some(v) => v,
        None => { return Err(VmError::Format); },
    };
    let (attributes, end) = match deserialize_attributes(buf, at + 8, attributes_count) {
        Ok(pair) => pair,
        Err(_) => { return Err(VmError::Format); },
    };
    Ok((RawMember { access_flags, name_index, descriptor_index, attributes_count, attributes }, end))
}

/// Decodes the `count` fields that start at `at`.
fn deserialize_fields(buf: &[u8], at: usize, count: u16) -> (r: Result<
    (Vec<FieldInfo>, usize),
    VmError,
>)
    requires
        at <= buf@.len(),
    ensures
        match spec_members(buf@, at as int, count as nat) {
            Some((members, end)) => {
                &&& r is Ok
                &&& views(r->Ok_0.0@) == members
                &&& r->Ok_0.0@.len() == count
                &&& forall|i: int| 0 <= i < r->Ok_0.0@.len() ==> (#[trigger] r->Ok_0.0@[i]).wf()
                &&& r->Ok_0.1 == end
                &&& end <= buf@.len()
            },
            None => r == Err::<(Vec<FieldInfo>, usize), VmError>(VmError::Format),
        },
{
    let mut fields: Vec<FieldInfo> = Vec::new();
    let mut pos: usize = at;
    let mut done: u16 = 0;
    while done < count
        invariant
            done <= count,
            pos <= buf@.len(),
            fields@.len() == done,
            forall|i: int| 0 <= i < fields@.len() ==> (#[trigger] fields@[i]).wf(),
            spec_members(buf@, at as int, count as nat) == match spec_members(
                buf@,
                pos as int,
                (count - done) as nat,
            ) {
                Some((rest, end)) => Some((views(fields@) + rest, end)),
                None => None,
            },
        decreases count - done,
    {
        let ghost before = fields@;
        let (raw, next) = match deserialize_member(buf, pos) {
            Ok(pair) => pair,
            Err(_) => { return Err(VmError::Format); },
        };
        let ghost first = raw@;
        let item = FieldInfo {
            access_flags: raw.access_flags,
            name_index: raw.name_index,
            descriptor_index: raw.descriptor_index,
            attributes_count: raw.attributes_count,
            attributes: raw.attributes,
        };
        assert(item@ == first);
        fields.push(item);
        done = done + 1;
        proof {
            lemma_views_push(before, item);
            match spec_members(buf@, next as int, (count - done) as nat) {
                Some((rest, end)) => {
                    assert(views(fields@) + rest =~= views(before) + (seq![first] + rest));
                },
                None => {},
            }
        }
        pos = next;
    }
    proof {
        assert(views(fields@) + Seq::<MemberView>::empty() =~= views(fields@));
    }
    Ok((fields, pos))
}

/// Decodes the `count` methods that start at `at`.
fn deserialize_methods(buf: &[u8], at: usize, count: u16) -> (r: Result<
    (Vec<MethodInfo>, usize),
    VmError,
>)
    requires
        at <= buf@.len(),
    ensures
        match spec_members(buf@, at as int, count as nat) {
            Some((members, end)) => {
                &&& r is Ok
                &&& views(r->Ok_0.0@) == members
                &&& r->Ok_0.0@.len() == count
                &&& forall|i: int| 0 <= i < r->Ok_0.0@.len() ==> (#[trigger] r->Ok_0.0@[i]).wf()
                &&& r->Ok_0.1 == end
                &&& end <= buf@.len()
            },
            None => r == Err::<(Vec<MethodInfo>, usize), VmError>(VmError::Format),
        },
{
    let mut methods: Vec<MethodInfo> = Vec::new();
    let mut pos: usize = at;
    let mut done: u16 = 0;
    while done < count
        invariant
            done <= count,
            pos <= buf@.len(),
            methods@.len() == done,
            forall|i: int| 0 <= i < methods@.len() ==> (#[trigger] methods@[i]).wf(),
            spec_members(buf@, at as int, count as nat) == match spec_members(
                buf@,
                pos as int,
                (count - done) as nat,
            ) {
                Some((rest, end)) => Some((views(methods@) + rest, end)),
                None => None,
            },
        decreases count - done,
    {
        let ghost before = methods@;
        let (raw, next) = match deserialize_member(buf, pos) {
            Ok(pair) => pair,
            Err(_) => { return Err(VmError::Format); },
        };
        let ghost first = raw@;
        let item = MethodInfo {
            access_flags: raw.access_flags,
            name_index: raw.name_index,
            descriptor_index: raw.descriptor_index,
            attributes_count: raw.attributes_count,
            attributes: raw.attributes,
        };
        assert(item@ == first);
        methods.push(item);
        done = done + 1;
        proof {
            lemma_views_push(before, item);
            match spec_members(buf@, next as int, (count - done) as nat) {
                Some((rest, end)) => {
                    assert(views(methods@) + rest =~= views(before) + (seq![first] + rest));
                },
                None => {},
            }
        }
        pos = next;
    }
    proof {
        assert(views(methods@) + Seq::<MemberView>::empty() =~= views(methods@));
    }
    Ok((methods, pos))
}

/// Decodes the `count` interface indices that start at `at`.
fn deserialize_interfaces(buf: &[u8], at: usize, count: u16) -> (r: Vec<u16>)
    requires
        at + 2 * count <= buf@.len(),
    ensures
        r@ == spec_interfaces(buf@, at as int, count as nat),
{
    let mut interfaces: Vec<u16> = Vec::new();
    let mut done: u16 = 0;
    let size = buf.len();
    while done < count
        invariant
            done <= count,
            at + 2 * count <= buf@.len(),
            size == buf@.len(),
            interfaces@ == spec_interfaces(buf@, at as int, done as nat),
        decreases count - done,
    {
        let index = match read_u16(buf, at + 2 * (done as usize)) {
            Some(i) => i,
            None => 0,
        };
        interfaces.push(index);
        done = done + 1;
        assert(interfaces@ =~= spec_interfaces(buf@, at as int, done as nat));
    }
    interfaces
}

/// Decodes a class file.
///
/// Fails with `Format`, and only then, where the bytes spell no class file:
/// the first four bytes are not `CA FE BA BE`, the major version is above 55,
/// a constant has an unknown tag, or a length-prefixed region overruns the
/// buffer. What the constants refer to is not looked at.
pub fn deserialize_class_file(buf: &[u8]) -> (r: Result<DeserializedClassFile, VmError>)
    ensures
        match spec_class_file(buf@) {
            Some(class_file) => r is Ok && r->Ok_0@ == class_file && r->Ok_0.wf(),
            None => r == Err::<DeserializedClassFile, VmError>(VmError::Format),
        },
{
    if buf.len() < 10 {
        return Err(VmError::Format);
    }
    let magic = match read_u32(buf, 0) {
        Some(v) => v,
        None => { return Err(VmError::Format); },
    };
    if magic != 0xcafe_babe {
        return Err(VmError::Format);
    }
    let minor_version = match read_u16(buf, 4) {
        Some(v) => v,
        None => { return Err(VmError::Format); },
    };
    let major_version = match read_u16(buf, 6) {
        Some(v) => v,
        None => { return Err(VmError::Format); },
    };
    if major_version > 55 {
        return Err(VmError::Format);
    }
    let constant_pool_count = match read_u16(buf, 8) {
        Some(v) => v,
        None => { return Err(VmError::Format); },
    };
    if constant_pool_count == 0 {
        return Err(VmError::Format);
    }
    let (constant_pool, p1) = match deserialize_pool(buf, 10, constant_pool_count - 1) {
        Ok(pair) => pair,
        Err(_) => { return Err(VmError::Format); },
    };
    if buf.len() - p1 < 8 {
        return Err(VmError::Format);
    }
    let access_flags = match read_u16(buf, p1) {
        Some(v) => v,
        None => { return Err(VmError::Format); },
    };
    let this_class = match read_u16(buf, p1 + 2) {
        Some(v) => v,
        None => { return Err(VmError::Format); },
    };
    let super_class = match read_u16(buf, p1 + 4) {
        Some(v) => v,
        None => { return Err(VmError::Format); },
    };
    let interfaces_count = match read_u16(buf, p1 + 6) {
        Some(v) => v,
        None => { return Err(VmError::Format); },
    };
    if buf.len() - p1 - 8 < 2 * (interfaces_count as usize) {
        return Err(VmError::Format);
    }
    let interfaces = deserialize_interfaces(buf, p1 + 8, interfaces_count);
    let p2: usize = p1 + 8 + 2 * (interfaces_count as usize);
    let fields_count = match read_u16(buf, p2) {
        Some(v) => v,
        None => { return Err(VmError::Format); },
    };
    let (fields, p3) = match deserialize_fields(buf, p2 + 2, fields_count) {
        Ok(pair) => pair,
        Err(_) => { return Err(VmError::Format); },
    };
    let methods_count = match read_u16(buf, p3) {
        Some(v) => v,
        None => { return Err(VmError::Format); },
    };
    let (methods, p4) = match deserialize_methods(buf, p3 + 2, methods_count) {
        Ok(pair) => pair,
        Err(_) => { return Err(VmError::Format); },
    };
    let attributes_count = match read_u16(buf, p4) {
        Some(v) => v,
        None => { return Err(VmError::Format); },
    };
    let (attributes, _) = match deserialize_attributes(buf, p4 + 2, attributes_count) {
        Ok(pair) => pair,
        Err(_) => { return Err(VmError::Format); },
    };
    Ok(
        DeserializedClassFile {
            magic,
            minor_version,
            major_version,
            constant_pool_count,
            constant_pool,
            access_flags,
            this_class,
            super_class,
            interfaces_count,
            interfaces,
            fields_count,
            fields,
            methods_count,
            methods,
            attributes_count,
            attributes,
        },
    )
}

} // verus!
