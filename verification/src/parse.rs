//! From the raw structure of a class file to its meaning: access flags,
//! resolved constants, typed fields and methods, and the Code attribute.

use vstd::prelude::*;
use vstd::string::*;
use vstd::utf8::{decode_utf8, valid_utf8};

use crate::cell::{int_of, join_long, join_words, long_of, long_to_signed, to_signed};
use crate::descriptor::{
    field_type_end, parse_field_descriptor, parse_method_descriptor, spec_method_descriptor,
    FieldDescriptor, MethodDescriptor, MethodDescriptorView,
};
use crate::deserialize::{
    views, AttributeInfo, AttributeView, CPInfo, CPInfoView, ClassFileView, DeserializedClassFile,
    FieldInfo, MemberView, MethodInfo,
};
use crate::error::VmError;
use crate::reader::{be16, be32, read_bytes, read_u16, read_u32};

verus! {

/// Whether every bit of `mask` is set in `flags`.
pub open spec fn has_flag(flags: u16, mask: u16) -> bool {
    flags & mask == mask
}

/// The access flags of a class.
#[derive(Clone, Copy, Debug, PartialEq, Eq, Structural)]
pub struct ClassAccess {
    pub public: bool,
    pub is_final: bool,
    pub is_super: bool,
    pub interface: bool,
}

impl ClassAccess {
    /// The access of a class, from the flags of its class file.
    pub open spec fn spec_new(access_flags: u16) -> ClassAccess {
        ClassAccess {
            public: has_flag(access_flags, 0x0001),
            is_final: has_flag(access_flags, 0x0010),
            is_super: has_flag(access_flags, 0x0020),
            interface: has_flag(access_flags, 0x0200),
        }
    }

    /// Decodes the access flags of a class.
    pub fn new(access_flags: u16) -> (r: ClassAccess)
        ensures
            r == Self::spec_new(access_flags),
    {
        ClassAccess {
            public: access_flags & 0x0001 == 0x0001,
            is_final: access_flags & 0x0010 == 0x0010,
            is_super: access_flags & 0x0020 == 0x0020,
            interface: access_flags & 0x0200 == 0x0200,
        }
    }
}

/// The access flags of a field.
#[derive(Clone, Copy, Debug, PartialEq, Eq, Structural)]
pub struct FieldAccess {
    pub public: bool,
    pub private: bool,
    pub protected: bool,
    pub is_static: bool,
    pub is_final: bool,
    pub volatile: bool,
    pub transient: bool,
    pub synthetic: bool,
    pub is_enum: bool,
}

impl FieldAccess {
    /// The access of a field, from its flags.
    pub open spec fn spec_new(access_flags: u16) -> FieldAccess {
        FieldAccess {
            public: has_flag(access_flags, 0x0001),
            private: has_flag(access_flags, 0x0002),
            protected: has_flag(access_flags, 0x0004),
            is_static: has_flag(access_flags, 0x0008),
            is_final: has_flag(access_flags, 0x0010),
            volatile: has_flag(access_flags, 0x0040),
            transient: has_flag(access_flags, 0x0080),
            synthetic: has_flag(access_flags, 0x1000),
            is_enum: has_flag(access_flags, 0x4000),
        }
    }

    /// Decodes the access flags of a field.
    pub fn new(access_flags: u16) -> (r: FieldAccess)
        ensures
            r == Self::spec_new(access_flags),
    {
        FieldAccess {
            public: access_flags & 0x0001 == 0x0001,
            private: access_flags & 0x0002 == 0x0002,
            protected: access_flags & 0x0004 == 0x0004,
            is_static: access_flags & 0x0008 == 0x0008,
            is_final: access_flags & 0x0010 == 0x0010,
            volatile: access_flags & 0x0040 == 0x0040,
            transient: access_flags & 0x0080 == 0x0080,
            synthetic: access_flags & 0x1000 == 0x1000,
            is_enum: access_flags & 0x4000 == 0x4000,
        }
    }
}

/// The access flags of a method.
#[derive(Clone, Copy, Debug, PartialEq, Eq, Structural)]
pub struct MethodAccess {
    pub public: bool,
    pub private: bool,
    pub protected: bool,
    pub is_static: bool,
    pub is_final: bool,
    pub synchronized: bool,
    pub bridge: bool,
    pub varargs: bool,
    pub native: bool,
    pub is_abstract: bool,
    pub strict: bool,
    pub synthetic: bool,
}

impl MethodAccess {
    /// The access of a method, from its flags.
    pub open spec fn spec_new(access_flags: u16) -> MethodAccess {
        MethodAccess {
            public: has_flag(access_flags, 0x0001),
            private: has_flag(access_flags, 0x0002),
            protected: has_flag(access_flags, 0x0004),
            is_static: has_flag(access_flags, 0x0008),
            is_final: has_flag(access_flags, 0x0010),
            synchronized: has_flag(access_flags, 0x0020),
            bridge: has_flag(access_flags, 0x0040),
            varargs: has_flag(access_flags, 0x0080),
            native: has_flag(access_flags, 0x0100),
            is_abstract: has_flag(access_flags, 0x0400),
            strict: has_flag(access_flags, 0x0800),
            synthetic: has_flag(access_flags, 0x1000),
        }
    }

    /// Decodes the access flags of a method.
    pub fn new(access_flags: u16) -> (r: MethodAccess)
        ensures
            r == Self::spec_new(access_flags),
    {
        MethodAccess {
            public: access_flags & 0x0001 == 0x0001,
            private: access_flags & 0x0002 == 0x0002,
            protected: access_flags & 0x0004 == 0x0004,
            is_static: access_flags & 0x0008 == 0x0008,
            is_final: access_flags & 0x0010 == 0x0010,
            synchronized: access_flags & 0x0020 == 0x0020,
            bridge: access_flags & 0x0040 == 0x0040,
            varargs: access_flags & 0x0080 == 0x0080,
            native: access_flags & 0x0100 == 0x0100,
            is_abstract: access_flags & 0x0400 == 0x0400,
            strict: access_flags & 0x0800 == 0x0800,
            synthetic: access_flags & 0x1000 == 0x1000,
        }
    }
}

/// One entry of a method's exception table. The handler at `handler_pc`
/// covers the instructions from `start_pc` up to, but not including,
/// `end_pc`; `catch_type` is the constant-pool index of the class it
/// catches, 0 for any.
#[derive(Clone, Copy, Debug, PartialEq, Eq, Structural)]
pub struct ExceptionTableItem {
    pub start_pc: usize,
    pub end_pc: usize,
    pub handler_pc: usize,
    pub catch_type: usize,
}

/// An attribute that has been looked at: the parts of a Code attribute, or a
/// placeholder for an attribute of any other kind.
#[derive(Debug, Clone)]
pub enum Attribute {
    Code { max_stack: usize, max_locals: usize, bytes: Vec<u8>, exception_table: Vec<ExceptionTableItem> },
    Placeholder,
}

/// The mathematical content of a Code attribute.
pub struct CodeView {
    pub max_stack: usize,
    pub max_locals: usize,
    pub bytes: Seq<u8>,
    pub exception_table: Seq<ExceptionTableItem>,
}

impl View for Attribute {
    type V = Option<CodeView>;

    /// The code that the attribute holds; `None` for an attribute of
    /// another kind.
    open spec fn view(&self) -> Option<CodeView> {
        match *self {
            Attribute::Code { max_stack, max_locals, bytes, exception_table } => Some(
                CodeView {
                    max_stack,
                    max_locals,
                    bytes: bytes@,
                    exception_table: exception_table@,
                },
            ),
            Attribute::Placeholder => None,
        }
    }
}

/// A copy of a byte vector.
pub fn copy_bytes(bytes: &Vec<u8>) -> (r: Vec<u8>)
    ensures
        r@ == bytes@,
{
    let mut out: Vec<u8> = Vec::new();
    let mut i: usize = 0;
    while i < bytes.len()
        invariant
            i <= bytes.len(),
            out@ == bytes@.subrange(0, i as int),
        decreases bytes.len() - i,
    {
        out.push(bytes[i]);
        i = i + 1;
        assert(out@ =~= bytes@.subrange(0, i as int));
    }
    assert(bytes@.subrange(0, bytes@.len() as int) =~= bytes@);
    out
}

/// A copy of an exception table.
pub fn copy_exception_table(table: &Vec<ExceptionTableItem>) -> (r: Vec<ExceptionTableItem>)
    ensures
        r@ == table@,
{
    let mut out: Vec<ExceptionTableItem> = Vec::new();
    let mut i: usize = 0;
    while i < table.len()
        invariant
            i <= table.len(),
            out@ == table@.subrange(0, i as int),
        decreases table.len() - i,
    {
        out.push(table[i]);
        i = i + 1;
        assert(out@ =~= table@.subrange(0, i as int));
    }
    assert(table@.subrange(0, table@.len() as int) =~= table@);
    out
}

impl Attribute {
    /// The parts of a Code attribute: code bytes, `max_stack`, `max_locals`
    /// and the exception table; `None` for an attribute of another kind.
    pub fn as_code(&self) -> (r: Option<(Vec<u8>, usize, usize, Vec<ExceptionTableItem>)>)
        ensures
            match (self@, r) {
                (Some(code), Some((bytes, max_stack, max_locals, exception_table))) => {
                    &&& bytes@ == code.bytes
                    &&& max_stack == code.max_stack
                    &&& max_locals == code.max_locals
                    &&& exception_table@ == code.exception_table
                },
                (None, None) => true,
                _ => false,
            },
    {
        if let Self::Code { bytes, max_stack, max_locals, exception_table } = self {
            Some((copy_bytes(bytes), *max_stack, *max_locals, copy_exception_table(exception_table)))
        } else {
            None
        }
    }
}

/// The exception-table entry at `at`.
pub open spec fn spec_exception_entry(s: Seq<u8>, at: int) -> ExceptionTableItem {
    ExceptionTableItem {
        start_pc: be16(s, at) as usize,
        end_pc: be16(s, at + 2) as usize,
        handler_pc: be16(s, at + 4) as usize,
        catch_type: be16(s, at + 6) as usize,
    }
}

/// The content of a Code attribute, from its bytes: `max_stack`,
/// `max_locals`, the length-prefixed code and the counted exception table.
/// `None` where one of them overruns the bytes. What follows the exception
/// table is not looked at.
pub open spec fn spec_code(s: Seq<u8>) -> Option<CodeView> {
    if s.len() < 8 || 8 + be32(s, 4) + 2 > s.len() {
        None
    } else {
        let table = 8 + be32(s, 4);
        let count = be16(s, table);
        if table + 2 + 8 * count > s.len() {
            None
        } else {
            Some(
                CodeView {
                    max_stack: be16(s, 0) as usize,
                    max_locals: be16(s, 2) as usize,
                    bytes: s.subrange(8, table),
                    exception_table: Seq::new(
                        count as nat,
                        |i: int| spec_exception_entry(s, table + 2 + 8 * i),
                    ),
                },
            )
        }
    }
}

/// Decodes the content of a Code attribute.
pub fn parse_code(info: &Vec<u8>) -> (r: Result<Attribute, VmError>)
    ensures
        match spec_code(info@) {
            Some(code) => r is Ok && r->Ok_0@ == Some(code),
            None => r == Err::<Attribute, VmError>(VmError::Format),
        },
{
    let buf = info.as_slice();
    let size = buf.len();
    if size < 8 {
        return Err(VmError::Format);
    }
    let max_stack = match read_u16(buf, 0) {
        Some(v) => v,
        None => { return Err(VmError::Format); },
    };
    let max_locals = match read_u16(buf, 2) {
        Some(v) => v,
        None => { return Err(VmError::Format); },
    };
    let code_length = match read_u32(buf, 4) {
        Some(v) => v,
        None => { return Err(VmError::Format); },
    };
    if ((size - 8) as u64) < (code_length as u64) || size - 8 - (code_length as usize) < 2 {
        return Err(VmError::Format);
    }
    let bytes = match read_bytes(buf, 8, code_length as usize) {
        Some(b) => b,
        None => { return Err(VmError::Format); },
    };
    let table: usize = 8 + code_length as usize;
    let count = match read_u16(buf, table) {
        Some(v) => v,
        None => { return Err(VmError::Format); },
    };
    if (size - table - 2) / 8 < count as usize {
        return Err(VmError::Format);
    }
    let mut exception_table: Vec<ExceptionTableItem> = Vec::new();
    let mut done: u16 = 0;
    while done < count
        invariant
            done <= count,
            size == buf@.len(),
            table + 2 + 8 * count <= size,
            exception_table@ == Seq::new(
                done as nat,
                |i: int| spec_exception_entry(buf@, table + 2 + 8 * i),
            ),
        decreases count - done,
    {
        let at: usize = table + 2 + 8 * (done as usize);
        let start_pc = match read_u16(buf, at) {
            Some(v) => v,
            None => 0,
        };
        let end_pc = match read_u16(buf, at + 2) {
            Some(v) => v,
            None => 0,
        };
        let handler_pc = match read_u16(buf, at + 4) {
            Some(v) => v,
            None => 0,
        };
        let catch_type = match read_u16(buf, at + 6) {
            Some(v) => v,
            None => 0,
        };
        exception_table.push(
            ExceptionTableItem {
                start_pc: start_pc as usize,
                end_pc: end_pc as usize,
                handler_pc: handler_pc as usize,
                catch_type: catch_type as usize,
            },
        );
        done = done + 1;
        assert(exception_table@ =~= Seq::new(
            done as nat,
            |i: int| spec_exception_entry(buf@, table + 2 + 8 * i),
        ));
    }
    Ok(
        Attribute::Code {
            max_stack: max_stack as usize,
            max_locals: max_locals as usize,
            bytes,
            exception_table,
        },
    )
}

/// The kind of a method handle.
#[derive(Clone, Copy, Debug, PartialEq, Eq, Structural)]
pub enum RefKind {
    GetField,
    GetStatic,
    PutField,
    PutStatic,
    InvokeVirtual,
    InvokeStatic,
    InvokeSpecial,
    NewInvokeSpecial,
    InvokeInterface,
}

/// A class, as a constant names it.
#[derive(Debug, Clone)]
pub struct ClassInfo {
    pub name: String,
}

/// A resolved constant. A float or double constant holds the bits of its
/// IEEE-754 value.
#[derive(Debug)]
pub enum Constant {
    Class(ClassInfo),
    Utf8(String),
    String(String),
    MethodRef(ClassInfo, Box<Constant>),
    FieldRef(ClassInfo, Box<Constant>),
    NameAndType(String, String),
    InvokeDynamic(u16, Box<Constant>),
    MethodHandle(RefKind, Box<Constant>),
    MethodType(String),
    Integer(i32),
    Long(i64),
    Float(u32),
    Double(u64),
    Placeholder,
}

/// The mathematical content of a [`Constant`].
pub enum ConstantView {
    Class(Seq<char>),
    Utf8(Seq<char>),
    String(Seq<char>),
    MethodRef(Seq<char>, Box<ConstantView>),
    FieldRef(Seq<char>, Box<ConstantView>),
    NameAndType(Seq<char>, Seq<char>),
    InvokeDynamic(u16, Box<ConstantView>),
    MethodHandle(RefKind, Box<ConstantView>),
    MethodType(Seq<char>),
    Integer(i32),
    Long(i64),
    Float(u32),
    Double(u64),
    Placeholder,
}

impl Constant {
    /// The mathematical content of the constant.
    pub open spec fn content(self) -> ConstantView
        decreases self,
    {
        match self {
            Constant::Class(info) => ConstantView::Class(info.name@),
            Constant::Utf8(text) => ConstantView::Utf8(text@),
            Constant::String(text) => ConstantView::String(text@),
            Constant::MethodRef(info, inner) => ConstantView::MethodRef(
                info.name@,
                Box::new(inner.content()),
            ),
            Constant::FieldRef(info, inner) => ConstantView::FieldRef(
                info.name@,
                Box::new(inner.content()),
            ),
            Constant::NameAndType(name, descriptor) => ConstantView::NameAndType(
                name@,
                descriptor@,
            ),
            Constant::InvokeDynamic(index, inner) => ConstantView::InvokeDynamic(
                index,
                Box::new(inner.content()),
            ),
            Constant::MethodHandle(kind, inner) => ConstantView::MethodHandle(
                kind,
                Box::new(inner.content()),
            ),
            Constant::MethodType(text) => ConstantView::MethodType(text@),
            Constant::Integer(v) => ConstantView::Integer(v),
            Constant::Long(v) => ConstantView::Long(v),
            Constant::Float(bits) => ConstantView::Float(bits),
            Constant::Double(bits) => ConstantView::Double(bits),
            Constant::Placeholder => ConstantView::Placeholder,
        }
    }

    /// The class, where the constant is a class.
    pub fn as_class(&self) -> (r: Option<&ClassInfo>)
        ensures
            match *self {
                Constant::Class(info) => r == Some(&info),
                _ => r is None,
            },
    {
        if let Self::Class(v) = self {
            Some(v)
        } else {
            None
        }
    }

    /// The text, where the constant is a Utf8 constant.
    pub fn as_utf8(&self) -> (r: Option<&String>)
        ensures
            match *self {
                Constant::Utf8(text) => r == Some(&text),
                _ => r is None,
            },
    {
        if let Self::Utf8(v) = self {
            Some(v)
        } else {
            None
        }
    }

    /// A copy of the two parts of the constant, where it is a method
    /// reference.
    pub fn as_method_ref(&self) -> (r: Option<(ClassInfo, Box<Constant>)>)
        ensures
            match *self {
                Constant::MethodRef(info, inner) => r == Some((info, inner)),
                _ => r is None,
            },
    {
        if let Self::MethodRef(value1, value2) = self {
            Some((ClassInfo { name: value1.name.clone() }, Box::new(copy_constant(&**value2))))
        } else {
            None
        }
    }

    /// A copy of the two parts of the constant, where it is a field
    /// reference.
    pub fn as_field_ref(&self) -> (r: Option<(ClassInfo, Box<Constant>)>)
        ensures
            match *self {
                Constant::FieldRef(info, inner) => r == Some((info, inner)),
                _ => r is None,
            },
    {
        if let Self::FieldRef(value1, value2) = self {
            Some((ClassInfo { name: value1.name.clone() }, Box::new(copy_constant(&**value2))))
        } else {
            None
        }
    }

    /// A copy of name and descriptor, where the constant is a NameAndType
    /// constant.
    pub fn as_name_and_type(&self) -> (r: Option<(String, String)>)
        ensures
            match *self {
                Constant::NameAndType(name, descriptor) => r == Some((name, descriptor)),
                _ => r is None,
            },
    {
        if let Self::NameAndType(value1, value2) = self {
            Some((value1.clone(), value2.clone()))
        } else {
            None
        }
    }
}

impl View for Constant {
    type V = ConstantView;

    open spec fn view(&self) -> ConstantView {
        self.content()
    }
}

/// A copy of a constant.
pub fn copy_constant(c: &Constant) -> (r: Constant)
    ensures
        r == *c,
    decreases *c,
{
    match c {
        Constant::Class(info) => Constant::Class(ClassInfo { name: info.name.clone() }),
        Constant::Utf8(text) => Constant::Utf8(text.clone()),
        Constant::String(text) => Constant::String(text.clone()),
        Constant::MethodRef(info, inner) => Constant::MethodRef(
            ClassInfo { name: info.name.clone() },
            Box::new(copy_constant(&**inner)),
        ),
        Constant::FieldRef(info, inner) => Constant::FieldRef(
            ClassInfo { name: info.name.clone() },
            Box::new(copy_constant(&**inner)),
        ),
        Constant::NameAndType(name, descriptor) => Constant::NameAndType(
            name.clone(),
            descriptor.clone(),
        ),
        Constant::InvokeDynamic(index, inner) => Constant::InvokeDynamic(
            *index,
            Box::new(copy_constant(&**inner)),
        ),
        Constant::MethodHandle(kind, inner) => Constant::MethodHandle(
            *kind,
            Box::new(copy_constant(&**inner)),
        ),
        Constant::MethodType(text) => Constant::MethodType(text.clone()),
        Constant::Integer(v) => Constant::Integer(*v),
        Constant::Long(v) => Constant::Long(*v),
        Constant::Float(bits) => Constant::Float(*bits),
        Constant::Double(bits) => Constant::Double(*bits),
        Constant::Placeholder => Constant::Placeholder,
    }
}

impl Clone for Constant {
    fn clone(&self) -> (r: Self)
        ensures
            r == *self,
    {
        copy_constant(self)
    }
}

/// The raw entry with index `index`; `None` for index 0 and for one past
/// the pool.
pub open spec fn raw_entry(raw: Seq<CPInfoView>, index: int) -> Option<CPInfoView> {
    if 1 <= index <= raw.len() {
        Some(raw[index - 1])
    } else {
        None
    }
}

/// The text of the Utf8 constant with index `index`; `None` where there is
/// no such constant or its bytes are not valid UTF-8.
pub open spec fn spec_utf8(raw: Seq<CPInfoView>, index: int) -> Option<Seq<char>> {
    match raw_entry(raw, index) {
        Some(CPInfoView::Utf8 { bytes }) => if valid_utf8(bytes) {
            Some(decode_utf8(bytes))
        } else {
            None
        },
        _ => None,
    }
}

/// The name of the Class constant with index `index`.
pub open spec fn spec_class_name(raw: Seq<CPInfoView>, index: int) -> Option<Seq<char>> {
    match raw_entry(raw, index) {
        Some(CPInfoView::Class { name_index }) => spec_utf8(raw, name_index as int),
        _ => None,
    }
}

/// Name and descriptor of the NameAndType constant with index `index`.
pub open spec fn spec_name_and_type(raw: Seq<CPInfoView>, index: int) -> Option<
    (Seq<char>, Seq<char>),
> {
    match raw_entry(raw, index) {
        Some(CPInfoView::NameAndType { name_index, descriptor_index }) => match (
            spec_utf8(raw, name_index as int),
            spec_utf8(raw, descriptor_index as int),
        ) {
            (Some(name), Some(descriptor)) => Some((name, descriptor)),
            _ => None,
        },
        _ => None,
    }
}

/// The class and the name-and-type that a field, method or interface-method
/// reference is made of. Class first: where both are missing, the class is
/// what fails.
pub open spec fn spec_class_and_member(
    raw: Seq<CPInfoView>,
    class_index: u16,
    name_and_type_index: u16,
) -> Option<(Seq<char>, Box<ConstantView>)> {
    match (
        spec_class_name(raw, class_index as int),
        spec_name_and_type(raw, name_and_type_index as int),
    ) {
        (Some(class), Some((name, descriptor))) => Some(
            (class, Box::new(ConstantView::NameAndType(name, descriptor))),
        ),
        _ => None,
    }
}

/// The field, method or interface-method reference with index `index`. An
/// interface-method reference resolves as a method reference does.
pub open spec fn spec_member_ref(raw: Seq<CPInfoView>, index: int) -> Option<ConstantView> {
    match raw_entry(raw, index) {
        Some(CPInfoView::FieldRef { class_index, name_and_type_index }) => {
            match spec_class_and_member(raw, class_index, name_and_type_index) {
                Some((class, member)) => Some(ConstantView::FieldRef(class, member)),
                None => None,
            }
        },
        Some(CPInfoView::MethodRef { class_index, name_and_type_index }) => {
            match spec_class_and_member(raw, class_index, name_and_type_index) {
                Some((class, member)) => Some(ConstantView::MethodRef(class, member)),
                None => None,
            }
        },
        Some(CPInfoView::InterfaceMethodRef { class_index, name_and_type_index }) => {
            match spec_class_and_member(raw, class_index, name_and_type_index) {
                Some((class, member)) => Some(ConstantView::MethodRef(class, member)),
                None => None,
            }
        },
        _ => None,
    }
}

/// The kind of method handle that a kind byte names.
pub open spec fn spec_ref_kind(kind: u8) -> Option<RefKind> {
    if kind == 1 {
        Some(RefKind::GetField)
    } else if kind == 2 {
        Some(RefKind::GetStatic)
    } else if kind == 3 {
        Some(RefKind::PutField)
    } else if kind == 4 {
        Some(RefKind::PutStatic)
    } else if kind == 5 {
        Some(RefKind::InvokeVirtual)
    } else if kind == 6 {
        Some(RefKind::InvokeStatic)
    } else if kind == 7 {
        Some(RefKind::InvokeSpecial)
    } else if kind == 8 {
        Some(RefKind::NewInvokeSpecial)
    } else if kind == 9 {
        Some(RefKind::InvokeInterface)
    } else {
        None
    }
}

/// What the constant with index `index` resolves to; `None` where it cannot
/// be resolved: the index is 0 or past the pool, the slot is the unusable
/// one after a long or double, a reference leads to a constant of another
/// kind than it must, or a text is not valid UTF-8.
pub open spec fn spec_resolve(raw: Seq<CPInfoView>, index: int) -> Option<ConstantView> {
    match raw_entry(raw, index) {
        None => None,
        Some(entry) => match entry {
            CPInfoView::Class { .. } => match spec_class_name(raw, index) {
                Some(name) => Some(ConstantView::Class(name)),
                None => None,
            },
            CPInfoView::MethodRef { .. } => spec_member_ref(raw, index),
            CPInfoView::FieldRef { .. } => spec_member_ref(raw, index),
            CPInfoView::InterfaceMethodRef { .. } => spec_member_ref(raw, index),
            CPInfoView::String { string_index } => match spec_utf8(raw, string_index as int) {
                Some(text) => Some(ConstantView::String(text)),
                None => None,
            },
            CPInfoView::Integer { bytes } => Some(ConstantView::Integer(int_of(bytes) as i32)),
            CPInfoView::Float { bytes } => Some(ConstantView::Float(bytes)),
            CPInfoView::Long { high_bytes, low_bytes } => Some(
                ConstantView::Long(long_of(join_words(high_bytes, low_bytes)) as i64),
            ),
            CPInfoView::Double { high_bytes, low_bytes } => Some(
                ConstantView::Double(join_words(high_bytes, low_bytes)),
            ),
            CPInfoView::NameAndType { .. } => match spec_name_and_type(raw, index) {
                Some((name, descriptor)) => Some(ConstantView::NameAndType(name, descriptor)),
                None => None,
            },
            CPInfoView::Utf8 { .. } => match spec_utf8(raw, index) {
                Some(text) => Some(ConstantView::Utf8(text)),
                None => None,
            },
            CPInfoView::MethodHandle { reference_kind, reference_index } => match (
                spec_ref_kind(reference_kind),
                spec_member_ref(raw, reference_index as int),
            ) {
                (Some(kind), Some(member)) => Some(
                    ConstantView::MethodHandle(kind, Box::new(member)),
                ),
                _ => None,
            },
            CPInfoView::MethodType { descriptor_index } => match spec_utf8(
                raw,
                descriptor_index as int,
            ) {
                Some(text) => Some(ConstantView::MethodType(text)),
                None => None,
            },
            CPInfoView::InvokeDynamic { bootstrap_method_attr_index, name_and_type_index } => {
                match spec_name_and_type(raw, name_and_type_index as int) {
                    Some((name, descriptor)) => Some(
                        ConstantView::InvokeDynamic(
                            bootstrap_method_attr_index,
                            Box::new(ConstantView::NameAndType(name, descriptor)),
                        ),
                    ),
                    None => None,
                }
            },
            CPInfoView::Unusable => None,
        },
    }
}

/// `String::from_utf8` of std: the text that the bytes encode, and `None`
/// exactly where they are not valid UTF-8.
#[verifier::external_body]
pub(crate) fn string_from_utf8(bytes: Vec<u8>) -> (r: Option<String>)
    ensures
        r is Some <==> valid_utf8(bytes@),
        r is Some ==> r->0@ == decode_utf8(bytes@),
{
    String::from_utf8(bytes).ok()
}

/// The text of a Utf8 entry.
///
/// The entry must be a Utf8 entry, as a caller knows from its tag; the text
/// of an entry found by index is had from the resolver.
pub fn parse_utf8_info(info: &CPInfo) -> (r: Result<String, VmError>)
    ensures
        match info@ {
            CPInfoView::Utf8 { bytes } => if valid_utf8(bytes) {
                r is Ok && r->Ok_0@ == decode_utf8(bytes)
            } else {
                r == Err::<String, VmError>(VmError::Resolution)
            },
            _ => r == Err::<String, VmError>(VmError::Resolution),
        },
{
    match info {
        CPInfo::ConstantUtf8Info { bytes, .. } => match string_from_utf8(copy_bytes(bytes)) {
            Some(text) => Ok(text),
            None => Err(VmError::Resolution),
        },
        _ => Err(VmError::Resolution),
    }
}

/// The text of the Utf8 constant with index `index`.
pub fn utf8_at(raw: &Vec<CPInfo>, index: u16) -> (r: Result<String, VmError>)
    ensures
        match spec_utf8(views(raw@), index as int) {
            Some(text) => r is Ok && r->Ok_0@ == text,
            None => r == Err::<String, VmError>(VmError::Resolution),
        },
{
    if index == 0 || index as usize > raw.len() {
        return Err(VmError::Resolution);
    }
    parse_utf8_info(&raw[index as usize - 1])
}

/// The class that the Class constant with index `index` names.
pub fn parse_class_info(raw: &Vec<CPInfo>, index: u16) -> (r: Result<ClassInfo, VmError>)
    ensures
        match spec_class_name(views(raw@), index as int) {
            Some(name) => r is Ok && r->Ok_0.name@ == name,
            None => r == Err::<ClassInfo, VmError>(VmError::Resolution),
        },
{
    if index == 0 || index as usize > raw.len() {
        return Err(VmError::Resolution);
    }
    match &raw[index as usize - 1] {
        CPInfo::ConstantClassInfo { name_index, .. } => match utf8_at(raw, *name_index) {
            Ok(name) => Ok(ClassInfo { name }),
            Err(e) => Err(e),
        },
        _ => Err(VmError::Resolution),
    }
}

/// Name and descriptor of the NameAndType constant with index `index`.
fn name_and_type_at(raw: &Vec<CPInfo>, index: u16) -> (r: Result<(String, String), VmError>)
    ensures
        match (spec_name_and_type(views(raw@), index as int), r) {
            (Some((name, descriptor)), Ok((n, d))) => n@ == name && d@ == descriptor,
            (None, Err(e)) => e == VmError::Resolution,
            _ => false,
        },
{
    if index == 0 || index as usize > raw.len() {
        return Err(VmError::Resolution);
    }
    match &raw[index as usize - 1] {
        CPInfo::ConstantNameAndTypeInfo { name_index, descriptor_index, .. } => {
            let name = match utf8_at(raw, *name_index) {
                Ok(t) => t,
                Err(e) => { return Err(e); },
            };
            let descriptor = match utf8_at(raw, *descriptor_index) {
                Ok(t) => t,
                Err(e) => { return Err(e); },
            };
            Ok((name, descriptor))
        },
        _ => Err(VmError::Resolution),
    }
}

/// The two parts of a field, method or interface-method reference.
fn class_and_member(raw: &Vec<CPInfo>, class_index: u16, name_and_type_index: u16) -> (r: Result<
    (ClassInfo, Box<Constant>),
    VmError,
>)
    ensures
        match (spec_class_and_member(views(raw@), class_index, name_and_type_index), r) {
            (Some((class, member)), Ok((info, inner))) => info.name@ == class && inner@
                == *member,
            (None, Err(e)) => e == VmError::Resolution,
            _ => false,
        },
{
    let info = match parse_class_info(raw, class_index) {
        Ok(i) => i,
        Err(e) => { return Err(e); },
    };
    let (name, descriptor) = match name_and_type_at(raw, name_and_type_index) {
        Ok(pair) => pair,
        Err(e) => { return Err(e); },
    };
    Ok((info, Box::new(Constant::NameAndType(name, descriptor))))
}

/// The field, method or interface-method reference with index `index`.
fn member_ref_at(raw: &Vec<CPInfo>, index: u16) -> (r: Result<Constant, VmError>)
    ensures
        match spec_member_ref(views(raw@), index as int) {
            Some(c) => r is Ok && r->Ok_0@ == c,
            None => r == Err::<Constant, VmError>(VmError::Resolution),
        },
{
    if index == 0 || index as usize > raw.len() {
        return Err(VmError::Resolution);
    }
    match &raw[index as usize - 1] {
        CPInfo::ConstantFieldRefInfo { class_index, name_and_type_index, .. } => {
            match class_and_member(raw, *class_index, *name_and_type_index) {
                Ok((info, inner)) => Ok(Constant::FieldRef(info, inner)),
                Err(e) => Err(e),
            }
        },
        CPInfo::ConstantMethodRefInfo { class_index, name_and_type_index, .. } => {
            match class_and_member(raw, *class_index, *name_and_type_index) {
                Ok((info, inner)) => Ok(Constant::MethodRef(info, inner)),
                Err(e) => Err(e),
            }
        },
        CPInfo::ConstantInterfaceMethodRefInfo { class_index, name_and_type_index, .. } => {
            match class_and_member(raw, *class_index, *name_and_type_index) {
                Ok((info, inner)) => Ok(Constant::MethodRef(info, inner)),
                Err(e) => Err(e),
            }
        },
        _ => Err(VmError::Resolution),
    }
}

/// The kind of method handle that a kind byte names.
fn ref_kind(kind: u8) -> (r: Option<RefKind>)
    ensures
        r == spec_ref_kind(kind),
{
    if kind == 1 {
        Some(RefKind::GetField)
    } else if kind == 2 {
        Some(RefKind::GetStatic)
    } else if kind == 3 {
        Some(RefKind::PutField)
    } else if kind == 4 {
        Some(RefKind::PutStatic)
    } else if kind == 5 {
        Some(RefKind::InvokeVirtual)
    } else if kind == 6 {
        Some(RefKind::InvokeStatic)
    } else if kind == 7 {
        Some(RefKind::InvokeSpecial)
    } else if kind == 8 {
        Some(RefKind::NewInvokeSpecial)
    } else if kind == 9 {
        Some(RefKind::InvokeInterface)
    } else {
        None
    }
}

/// Resolves the constant with index `index` from the raw pool alone.
pub fn resolve_entry(raw: &Vec<CPInfo>, index: u16) -> (r: Result<Constant, VmError>)
    ensures
        match spec_resolve(views(raw@), index as int) {
            Some(c) => r is Ok && r->Ok_0@ == c,
            None => r == Err::<Constant, VmError>(VmError::Resolution),
        },
{
    if index == 0 || index as usize > raw.len() {
        return Err(VmError::Resolution);
    }
    match &raw[index as usize - 1] {
        CPInfo::ConstantClassInfo { .. } => match parse_class_info(raw, index) {
            Ok(info) => Ok(Constant::Class(info)),
            Err(e) => Err(e),
        },
        CPInfo::ConstantMethodRefInfo { .. } => member_ref_at(raw, index),
        CPInfo::ConstantFieldRefInfo { .. } => member_ref_at(raw, index),
        CPInfo::ConstantInterfaceMethodRefInfo { .. } => member_ref_at(raw, index),
        CPInfo::ConstantStringInfo { string_index, .. } => match utf8_at(raw, *string_index) {
            Ok(text) => Ok(Constant::String(text)),
            Err(e) => Err(e),
        },
        CPInfo::ConstantIntegerInfo { bytes, .. } => Ok(Constant::Integer(to_signed(*bytes))),
        CPInfo::ConstantFloatInfo { bytes, .. } => Ok(Constant::Float(*bytes)),
        CPInfo::ConstantLongInfo { high_bytes, low_bytes, .. } => Ok(
            Constant::Long(long_to_signed(join_long(*high_bytes, *low_bytes))),
        ),
        CPInfo::ConstantDoubleInfo { high_bytes, low_bytes, .. } => Ok(
            Constant::Double(join_long(*high_bytes, *low_bytes)),
        ),
        CPInfo::ConstantNameAndTypeInfo { .. } => match name_and_type_at(raw, index) {
            Ok((name, descriptor)) => Ok(Constant::NameAndType(name, descriptor)),
            Err(e) => Err(e),
        },
        CPInfo::ConstantUtf8Info { .. } => match utf8_at(raw, index) {
            Ok(text) => Ok(Constant::Utf8(text)),
            Err(e) => Err(e),
        },
        CPInfo::ConstantMethodHandleInfo { reference_kind, reference_index, .. } => {
            let kind = match ref_kind(*reference_kind) {
                Some(k) => k,
                None => { return Err(VmError::Resolution); },
            };
            match member_ref_at(raw, *reference_index) {
                Ok(member) => Ok(Constant::MethodHandle(kind, Box::new(member))),
                Err(e) => Err(e),
            }
        },
        CPInfo::ConstantMethodTypeInfo { descriptor_index, .. } => {
            match utf8_at(raw, *descriptor_index) {
                Ok(text) => Ok(Constant::MethodType(text)),
                Err(e) => Err(e),
            }
        },
        CPInfo::ConstantInvokeDynamicInfo { bootstrap_method_attr_index, name_and_type_index, .. } => {
            match name_and_type_at(raw, *name_and_type_index) {
                Ok((name, descriptor)) => {
                    let inner = Constant::NameAndType(name, descriptor);
                    assert(inner@ == ConstantView::NameAndType(name@, descriptor@));
                    Ok(Constant::InvokeDynamic(*bootstrap_method_attr_index, Box::new(inner)))
                },
                Err(e) => Err(e),
            }
        },
        CPInfo::Unusable => Err(VmError::Resolution),
    }
}

/// Whether every slot of the resolved pool that is filled holds what the raw
/// pool resolves to there.
pub open spec fn memo_ok(pool: Seq<Constant>, raw: Seq<CPInfoView>) -> bool {
    &&& pool.len() == raw.len()
    &&& forall|i: int|
        0 <= i < pool.len() ==> (#[trigger] pool[i]) is Placeholder || Some(pool[i]@)
            == spec_resolve(raw, i + 1)
}

/// Resolves the constant with index `index`, once: the first call reads the
/// raw pool and fills the slot of the resolved pool, a later one returns
/// what the slot holds.
///
/// Fails with `Resolution`, and only then, where `spec_resolve` gives
/// nothing; the resolved pool is then unchanged.
pub fn parse_or_get_constant(
    constant_pool: &mut Vec<Constant>,
    deserialized_constant_pool: &Vec<CPInfo>,
    index: u16,
) -> (r: Result<Constant, VmError>)
    requires
        memo_ok(old(constant_pool)@, views(deserialized_constant_pool@)),
    ensures
        memo_ok(final(constant_pool)@, views(deserialized_constant_pool@)),
        match spec_resolve(views(deserialized_constant_pool@), index as int) {
            Some(c) => {
                &&& r is Ok
                &&& r->Ok_0@ == c
                &&& final(constant_pool)@.len() == old(constant_pool)@.len()
                &&& final(constant_pool)@[index - 1]@ == c
                &&& forall|i: int|
                    0 <= i < old(constant_pool)@.len() && i != index - 1
                        ==> final(constant_pool)@[i] == old(constant_pool)@[i]
            },
            None => r == Err::<Constant, VmError>(VmError::Resolution) && final(constant_pool)@
                == old(constant_pool)@,
        },
{
    if index == 0 || index as usize > constant_pool.len() {
        return Err(VmError::Resolution);
    }
    let slot: usize = index as usize - 1;
    match &constant_pool[slot] {
        Constant::Placeholder => {},
        cached => {
            return Ok(copy_constant(cached));
        },
    }
    let constant = match resolve_entry(deserialized_constant_pool, index) {
        Ok(c) => c,
        Err(e) => { return Err(e); },
    };
    let copy = copy_constant(&constant);
    constant_pool[slot] = copy;
    Ok(constant)
}

/// A field of a parsed class.
#[derive(Debug, Clone)]
pub struct Field {
    pub access: FieldAccess,
    pub name: String,
    pub descriptor: FieldDescriptor,
    pub attributes: Vec<Attribute>,
}

/// A method of a parsed class.
#[derive(Debug, Clone)]
pub struct Method {
    pub access: MethodAccess,
    pub name: String,
    pub descriptor: MethodDescriptor,
    pub attributes: Vec<Attribute>,
}

/// A parsed class: the skeleton of its class file with names and types
/// resolved, the raw constant pool, and the pool of constants resolved so
/// far.
#[derive(Debug)]
pub struct Class {
    pub access: ClassAccess,
    pub constant_pool: Vec<Constant>,
    pub raw_pool: Vec<CPInfo>,
    pub this_class: ClassInfo,
    pub super_class: Option<ClassInfo>,
    pub interfaces: Vec<ClassInfo>,
    pub fields: Vec<Field>,
    pub methods: Vec<Method>,
    pub attributes: Vec<Attribute>,
}

/// The mathematical content of a [`Field`].
pub struct FieldView {
    pub access: FieldAccess,
    pub name: Seq<char>,
    pub descriptor: Seq<char>,
    pub attributes: Seq<Option<CodeView>>,
}

/// The mathematical content of a [`Method`].
pub struct MethodView {
    pub access: MethodAccess,
    pub name: Seq<char>,
    pub descriptor: MethodDescriptorView,
    pub attributes: Seq<Option<CodeView>>,
}

/// The mathematical content of a [`Class`].
pub struct ClassView {
    pub access: ClassAccess,
    pub raw_pool: Seq<CPInfoView>,
    pub this_class: Seq<char>,
    pub super_class: Option<Seq<char>>,
    pub interfaces: Seq<Seq<char>>,
    pub fields: Seq<FieldView>,
    pub methods: Seq<MethodView>,
    pub attributes: Seq<Option<CodeView>>,
}

impl View for ClassInfo {
    type V = Seq<char>;

    open spec fn view(&self) -> Seq<char> {
        self.name@
    }
}

impl View for Field {
    type V = FieldView;

    open spec fn view(&self) -> FieldView {
        FieldView {
            access: self.access,
            name: self.name@,
            descriptor: self.descriptor.field_type@,
            attributes: views(self.attributes@),
        }
    }
}

impl View for Method {
    type V = MethodView;

    open spec fn view(&self) -> MethodView {
        MethodView {
            access: self.access,
            name: self.name@,
            descriptor: self.descriptor@,
            attributes: views(self.attributes@),
        }
    }
}

impl View for Class {
    type V = ClassView;

    open spec fn view(&self) -> ClassView {
        ClassView {
            access: self.access,
            raw_pool: views(self.raw_pool@),
            this_class: self.this_class@,
            super_class: match self.super_class {
                Some(info) => Some(info@),
                None => None,
            },
            interfaces: views(self.interfaces@),
            fields: views(self.fields@),
            methods: views(self.methods@),
            attributes: views(self.attributes@),
        }
    }
}

impl Class {
    /// The resolved pool agrees with the raw pool, and every type in the
    /// class is well-formed.
    pub open spec fn wf(&self) -> bool {
        &&& memo_ok(self.constant_pool@, views(self.raw_pool@))
        &&& forall|i: int|
            0 <= i < self.fields@.len() ==> (#[trigger] self.fields@[i]).descriptor.field_type.wf()
        &&& forall|i: int| 0 <= i < self.methods@.len() ==> (#[trigger] self.methods@[i]).descriptor.wf()
    }
}

/// Whether a text is the name of the Code attribute.
pub open spec fn is_code_name(name: Seq<char>) -> bool {
    name == seq!['C', 'o', 'd', 'e']
}

/// What an attribute means: its code where it is a Code attribute, `None`
/// where it is of another kind. Fails with `Resolution` where its name
/// cannot be read, with `Format` where its name is `Code` and its content
/// is not that of a Code attribute.
pub open spec fn spec_parse_attribute(raw: Seq<CPInfoView>, a: AttributeView) -> Result<
    Option<CodeView>,
    VmError,
> {
    match spec_utf8(raw, a.attribute_name_index as int) {
        None => Err(VmError::Resolution),
        Some(name) => if is_code_name(name) {
            match spec_code(a.info) {
                Some(code) => Ok(Some(code)),
                None => Err(VmError::Format),
            }
        } else {
            Ok(None)
        },
    }
}

/// What a list of attributes means; the first that fails decides the
/// error.
pub open spec fn spec_parse_attributes(raw: Seq<CPInfoView>, list: Seq<AttributeView>) -> Result<
    Seq<Option<CodeView>>,
    VmError,
>
    decreases list.len(),
{
    if list.len() == 0 {
        Ok(Seq::empty())
    } else {
        match spec_parse_attribute(raw, list[0]) {
            Err(e) => Err(e),
            Ok(first) => match spec_parse_attributes(raw, list.drop_first()) {
                Err(e) => Err(e),
                Ok(rest) => Ok(seq![first] + rest),
            },
        }
    }
}

/// What a field means: its name, then its type, then its attributes, each
/// of which may fail.
pub open spec fn spec_parse_field(raw: Seq<CPInfoView>, m: MemberView) -> Result<FieldView, VmError> {
    match spec_utf8(raw, m.name_index as int) {
        None => Err(VmError::Resolution),
        Some(name) => match spec_utf8(raw, m.descriptor_index as int) {
            None => Err(VmError::Resolution),
            Some(text) => match field_type_end(text, 0) {
                None => Err(VmError::Descriptor),
                Some(end) => match spec_parse_attributes(raw, m.attributes) {
                    Err(e) => Err(e),
                    Ok(attributes) => Ok(
                        FieldView {
                            access: FieldAccess::spec_new(m.access_flags),
                            name,
                            descriptor: text.subrange(0, end),
                            attributes,
                        },
                    ),
                },
            },
        },
    }
}

/// What a method means: its name, then its descriptor, then its attributes,
/// each of which may fail.
pub open spec fn spec_parse_method(raw: Seq<CPInfoView>, m: MemberView) -> Result<
    MethodView,
    VmError,
> {
    match spec_utf8(raw, m.name_index as int) {
        None => Err(VmError::Resolution),
        Some(name) => match spec_utf8(raw, m.descriptor_index as int) {
            None => Err(VmError::Resolution),
            Some(text) => match spec_method_descriptor(text) {
                None => Err(VmError::Descriptor),
                Some(descriptor) => match spec_parse_attributes(raw, m.attributes) {
                    Err(e) => Err(e),
                    Ok(attributes) => Ok(
                        MethodView {
                            access: MethodAccess::spec_new(m.access_flags),
                            name,
                            descriptor,
                            attributes,
                        },
                    ),
                },
            },
        },
    }
}

/// What a list of fields means; the first that fails decides the error.
pub open spec fn spec_parse_fields(raw: Seq<CPInfoView>, list: Seq<MemberView>) -> Result<
    Seq<FieldView>,
    VmError,
>
    decreases list.len(),
{
    if list.len() == 0 {
        Ok(Seq::empty())
    } else {
        match spec_parse_field(raw, list[0]) {
            Err(e) => Err(e),
            Ok(first) => match spec_parse_fields(raw, list.drop_first()) {
                Err(e) => Err(e),
                Ok(rest) => Ok(seq![first] + rest),
            },
        }
    }
}

/// What a list of methods means; the first that fails decides the error.
pub open spec fn spec_parse_methods(raw: Seq<CPInfoView>, list: Seq<MemberView>) -> Result<
    Seq<MethodView>,
    VmError,
>
    decreases list.len(),
{
    if list.len() == 0 {
        Ok(Seq::empty())
    } else {
        match spec_parse_method(raw, list[0]) {
            Err(e) => Err(e),
            Ok(first) => match spec_parse_methods(raw, list.drop_first()) {
                Err(e) => Err(e),
                Ok(rest) => Ok(seq![first] + rest),
            },
        }
    }
}

/// The names of the classes that a list of Class indices names; `None`
/// where one of them names none.
pub open spec fn spec_class_names(raw: Seq<CPInfoView>, list: Seq<u16>) -> Option<Seq<Seq<char>>>
    decreases list.len(),
{
    if list.len() == 0 {
        Some(Seq::empty())
    } else {
        match spec_class_name(raw, list[0] as int) {
            None => None,
            Some(first) => match spec_class_names(raw, list.drop_first()) {
                None => None,
                Some(rest) => Some(seq![first] + rest),
            },
        }
    }
}

/// What a class file means. The parts are read in this order, and the first
/// that fails decides the error: the class itself, its superclass (index 0
/// says that it has none), its interfaces, its fields, its methods, its
/// attributes.
pub open spec fn spec_parse(file: ClassFileView) -> Result<ClassView, VmError> {
    let raw = file.constant_pool;
    match spec_class_name(raw, file.this_class as int) {
        None => Err(VmError::Resolution),
        Some(this_class) => if file.super_class != 0 && spec_class_name(
            raw,
            file.super_class as int,
        ) is None {
            Err(VmError::Resolution)
        } else {
            match spec_class_names(raw, file.interfaces) {
                None => Err(VmError::Resolution),
                Some(interfaces) => match spec_parse_fields(raw, file.fields) {
                    Err(e) => Err(e),
                    Ok(fields) => match spec_parse_methods(raw, file.methods) {
                        Err(e) => Err(e),
                        Ok(methods) => match spec_parse_attributes(raw, file.attributes) {
                            Err(e) => Err(e),
                            Ok(attributes) => Ok(
                                ClassView {
                                    access: ClassAccess::spec_new(file.access_flags),
                                    raw_pool: raw,
                                    this_class,
                                    super_class: if file.super_class == 0 {
                                        None
                                    } else {
                                        spec_class_name(raw, file.super_class as int)
                                    },
                                    interfaces,
                                    fields,
                                    methods,
                                    attributes,
                                },
                            ),
                        },
                    },
                },
            }
        },
    }
}

/// Whether a text is the name of the Code attribute.
fn names_code(name: &String) -> (r: bool)
    ensures
        r == is_code_name(name@),
{
    proof {
        reveal_strlit("Code");
    }
    let code = "Code".to_owned();
    assert(code@ =~= seq!['C', 'o', 'd', 'e']);
    *name == code
}

/// Parses one attribute: a Code attribute to its parts, any other to a
/// placeholder.
pub fn parse_attribute(attribute_info: &AttributeInfo, constant_pool: &Vec<CPInfo>) -> (r: Result<
    Attribute,
    VmError,
>)
    ensures
        match spec_parse_attribute(views(constant_pool@), attribute_info@) {
            Ok(code) => r is Ok && r->Ok_0@ == code,
            Err(e) => r == Err::<Attribute, VmError>(e),
        },
{
    let name = match utf8_at(constant_pool, attribute_info.attribute_name_index) {
        Ok(n) => n,
        Err(e) => { return Err(e); },
    };
    if names_code(&name) {
        parse_code(&attribute_info.info)
    } else {
        Ok(Attribute::Placeholder)
    }
}

/// Parses a list of attributes.
fn parse_attributes(list: &Vec<AttributeInfo>, constant_pool: &Vec<CPInfo>) -> (r: Result<
    Vec<Attribute>,
    VmError,
>)
    ensures
        match spec_parse_attributes(views(constant_pool@), views(list@)) {
            Ok(attributes) => r is Ok && views(r->Ok_0@) == attributes,
            Err(e) => r == Err::<Vec<Attribute>, VmError>(e),
        },
{
    let ghost raw = views(constant_pool@);
    let ghost all = views(list@);
    let mut attributes: Vec<Attribute> = Vec::new();
    let mut i: usize = 0;
    proof {
        assert(all.skip(0) =~= all);
        match spec_parse_attributes(raw, all) {
            Ok(rest) => {
                assert(views(attributes@) + rest =~= rest);
            },
            Err(_) => {},
        }
    }
    while i < list.len()
        invariant
            i <= list.len(),
            raw == views(constant_pool@),
            all == views(list@),
            spec_parse_attributes(raw, all) == match spec_parse_attributes(raw, all.skip(i as int)) {
                Ok(rest) => Ok(views(attributes@) + rest),
                Err(e) => Err(e),
            },
        decreases list.len() - i,
    {
        let ghost before = attributes@;
        let attribute = match parse_attribute(&list[i], constant_pool) {
            Ok(a) => a,
            Err(e) => { return Err(e); },
        };
        let ghost first = attribute@;
        attributes.push(attribute);
        proof {
            assert(all.skip(i as int).drop_first() =~= all.skip(i + 1));
            assert(views(attributes@) =~= views(before).push(first));
            match spec_parse_attributes(raw, all.skip(i + 1)) {
                Ok(rest) => {
                    assert(views(attributes@) + rest =~= views(before) + (seq![first] + rest));
                },
                Err(_) => {},
            }
        }
        i = i + 1;
    }
    proof {
        assert(views(attributes@) + Seq::<Option<CodeView>>::empty() =~= views(attributes@));
    }
    Ok(attributes)
}

/// Parses one field.
pub fn parse_field(field_info: &FieldInfo, constant_pool: &Vec<CPInfo>) -> (r: Result<Field, VmError>)
    ensures
        match spec_parse_field(views(constant_pool@), field_info@) {
            Ok(field) => r is Ok && r->Ok_0@ == field && r->Ok_0.descriptor.field_type.wf(),
            Err(e) => r == Err::<Field, VmError>(e),
        },
{
    let access = FieldAccess::new(field_info.access_flags);
    let name = match utf8_at(constant_pool, field_info.name_index) {
        Ok(n) => n,
        Err(e) => { return Err(e); },
    };
    let descriptor_text = match utf8_at(constant_pool, field_info.descriptor_index) {
        Ok(t) => t,
        Err(e) => { return Err(e); },
    };
    let descriptor = match parse_field_descriptor(&descriptor_text) {
        Ok(d) => d,
        Err(e) => { return Err(e); },
    };
    let attributes = match parse_attributes(&field_info.attributes, constant_pool) {
        Ok(a) => a,
        Err(e) => { return Err(e); },
    };
    Ok(Field { access, name, descriptor, attributes })
}

/// Parses one method.
pub fn parse_method(field_info: &MethodInfo, constant_pool: &Vec<CPInfo>) -> (r: Result<
    Method,
    VmError,
>)
    ensures
        match spec_parse_method(views(constant_pool@), field_info@) {
            Ok(method) => r is Ok && r->Ok_0@ == method && r->Ok_0.descriptor.wf(),
            Err(e) => r == Err::<Method, VmError>(e),
        },
{
    let access = MethodAccess::new(field_info.access_flags);
    let name = match utf8_at(constant_pool, field_info.name_index) {
        Ok(n) => n,
        Err(e) => { return Err(e); },
    };
    let descriptor_text = match utf8_at(constant_pool, field_info.descriptor_index) {
        Ok(t) => t,
        Err(e) => { return Err(e); },
    };
    let descriptor = match parse_method_descriptor(descriptor_text) {
        Ok(d) => d,
        Err(e) => { return Err(e); },
    };
    let attributes = match parse_attributes(&field_info.attributes, constant_pool) {
        Ok(a) => a,
        Err(e) => { return Err(e); },
    };
    Ok(Method { access, name, descriptor, attributes })
}

/// Parses a list of fields.
fn parse_fields(list: &Vec<FieldInfo>, constant_pool: &Vec<CPInfo>) -> (r: Result<Vec<Field>, VmError>)
    ensures
        match spec_parse_fields(views(constant_pool@), views(list@)) {
            Ok(fields) => {
                &&& r is Ok
                &&& views(r->Ok_0@) == fields
                &&& forall|i: int|
                    0 <= i < r->Ok_0@.len() ==> (#[trigger] r->Ok_0@[i]).descriptor.field_type.wf()
            },
            Err(e) => r == Err::<Vec<Field>, VmError>(e),
        },
{
    let ghost raw = views(constant_pool@);
    let ghost all = views(list@);
    let mut fields: Vec<Field> = Vec::new();
    let mut i: usize = 0;
    proof {
        assert(all.skip(0) =~= all);
        match spec_parse_fields(raw, all) {
            Ok(rest) => {
                assert(views(fields@) + rest =~= rest);
            },
            Err(_) => {},
        }
    }
    while i < list.len()
        invariant
            i <= list.len(),
            raw == views(constant_pool@),
            all == views(list@),
            forall|k: int| 0 <= k < fields@.len() ==> (#[trigger] fields@[k]).descriptor.field_type.wf(),
            spec_parse_fields(raw, all) == match spec_parse_fields(raw, all.skip(i as int)) {
                Ok(rest) => Ok(views(fields@) + rest),
                Err(e) => Err(e),
            },
        decreases list.len() - i,
    {
        let ghost before = fields@;
        let field = match parse_field(&list[i], constant_pool) {
            Ok(f) => f,
            Err(e) => { return Err(e); },
        };
        let ghost first = field@;
        fields.push(field);
        proof {
            assert(all.skip(i as int).drop_first() =~= all.skip(i + 1));
            assert(views(fields@) =~= views(before).push(first));
            match spec_parse_fields(raw, all.skip(i + 1)) {
                Ok(rest) => {
                    assert(views(fields@) + rest =~= views(before) + (seq![first] + rest));
                },
                Err(_) => {},
            }
        }
        i = i + 1;
    }
    proof {
        assert(views(fields@) + Seq::<FieldView>::empty() =~= views(fields@));
    }
    Ok(fields)
}

/// Parses a list of methods.
fn parse_methods(list: &Vec<MethodInfo>, constant_pool: &Vec<CPInfo>) -> (r: Result<
    Vec<Method>,
    VmError,
>)
    ensures
        match spec_parse_methods(views(constant_pool@), views(list@)) {
            Ok(methods) => {
                &&& r is Ok
                &&& views(r->Ok_0@) == methods
                &&& forall|i: int| 0 <= i < r->Ok_0@.len() ==> (#[trigger] r->Ok_0@[i]).descriptor.wf()
            },
            Err(e) => r == Err::<Vec<Method>, VmError>(e),
        },
{
    let ghost raw = views(constant_pool@);
    let ghost all = views(list@);
    let mut methods: Vec<Method> = Vec::new();
    let mut i: usize = 0;
    proof {
        assert(all.skip(0) =~= all);
        match spec_parse_methods(raw, all) {
            Ok(rest) => {
                assert(views(methods@) + rest =~= rest);
            },
            Err(_) => {},
        }
    }
    while i < list.len()
        invariant
            i <= list.len(),
            raw == views(constant_pool@),
            all == views(list@),
            forall|k: int| 0 <= k < methods@.len() ==> (#[trigger] methods@[k]).descriptor.wf(),
            spec_parse_methods(raw, all) == match spec_parse_methods(raw, all.skip(i as int)) {
                Ok(rest) => Ok(views(methods@) + rest),
                Err(e) => Err(e),
            },
        decreases list.len() - i,
    {
        let ghost before = methods@;
        let method = match parse_method(&list[i], constant_pool) {
            Ok(m) => m,
            Err(e) => { return Err(e); },
        };
        let ghost first = method@;
        methods.push(method);
        proof {
            assert(all.skip(i as int).drop_first() =~= all.skip(i + 1));
            assert(views(methods@) =~= views(before).push(first));
            match spec_parse_methods(raw, all.skip(i + 1)) {
                Ok(rest) => {
                    assert(views(methods@) + rest =~= views(before) + (seq![first] + rest));
                },
                Err(_) => {},
            }
        }
        i = i + 1;
    }
    proof {
        assert(views(methods@) + Seq::<MethodView>::empty() =~= views(methods@));
    }
    Ok(methods)
}

/// Resolves the constant at `index`, which must be a Class constant.
fn class_constant(pool: &mut Vec<Constant>, raw: &Vec<CPInfo>, index: u16) -> (r: Result<
    ClassInfo,
    VmError,
>)
    requires
        memo_ok(old(pool)@, views(raw@)),
    ensures
        memo_ok(final(pool)@, views(raw@)),
        match spec_class_name(views(raw@), index as int) {
            Some(name) => r is Ok && r->Ok_0@ == name,
            None => r == Err::<ClassInfo, VmError>(VmError::Resolution),
        },
{
    let constant = match parse_or_get_constant(pool, raw, index) {
        Ok(c) => c,
        Err(e) => { return Err(e); },
    };
    match constant {
        Constant::Class(info) => Ok(info),
        _ => Err(VmError::Resolution),
    }
}

/// Parses a decoded class file into a class.
///
/// The class itself, its superclass and its interfaces are resolved through
/// the resolved pool, which remembers them; every other constant waits there
/// as a placeholder until it is first asked for.
pub fn parse(class_file: DeserializedClassFile) -> (r: Result<Class, VmError>)
    ensures
        match spec_parse(class_file@) {
            Ok(class) => r is Ok && r->Ok_0@ == class && r->Ok_0.wf(),
            Err(e) => r == Err::<Class, VmError>(e),
        },
{
    let access = ClassAccess::new(class_file.access_flags);
    let ghost raw = views(class_file.constant_pool@);
    let mut constant_pool: Vec<Constant> = Vec::new();
    let mut k: usize = 0;
    while k < class_file.constant_pool.len()
        invariant
            k <= class_file.constant_pool.len(),
            constant_pool@.len() == k,
            forall|j: int| 0 <= j < k ==> (#[trigger] constant_pool@[j]) is Placeholder,
        decreases class_file.constant_pool.len() - k,
    {
        constant_pool.push(Constant::Placeholder);
        k = k + 1;
    }
    let this_class = match class_constant(
        &mut constant_pool,
        &class_file.constant_pool,
        class_file.this_class,
    ) {
        Ok(info) => info,
        Err(e) => { return Err(e); },
    };
    let super_class = if class_file.super_class == 0 {
        None
    } else {
        match class_constant(&mut constant_pool, &class_file.constant_pool, class_file.super_class) {
            Ok(info) => Some(info),
            Err(e) => { return Err(e); },
        }
    };
    let ghost indices = class_file.interfaces@;
    let mut interfaces: Vec<ClassInfo> = Vec::new();
    let mut i: usize = 0;
    proof {
        assert(indices.skip(0) =~= indices);
        match spec_class_names(raw, indices) {
            Some(rest) => {
                assert(views(interfaces@) + rest =~= rest);
            },
            None => {},
        }
    }
    while i < class_file.interfaces.len()
        invariant
            i <= class_file.interfaces.len(),
            raw == views(class_file.constant_pool@),
            indices == class_file.interfaces@,
            memo_ok(constant_pool@, raw),
            spec_class_names(raw, indices) == match spec_class_names(raw, indices.skip(i as int)) {
                Some(rest) => Some(views(interfaces@) + rest),
                None => None,
            },
        decreases class_file.interfaces.len() - i,
    {
        let ghost before = interfaces@;
        let interface = match class_constant(
            &mut constant_pool,
            &class_file.constant_pool,
            class_file.interfaces[i],
        ) {
            Ok(info) => info,
            Err(e) => { return Err(e); },
        };
        let ghost first = interface@;
        interfaces.push(interface);
        proof {
            assert(indices.skip(i as int).drop_first() =~= indices.skip(i + 1));
            assert(views(interfaces@) =~= views(before).push(first));
            match spec_class_names(raw, indices.skip(i + 1)) {
                Some(rest) => {
                    assert(views(interfaces@) + rest =~= views(before) + (seq![first] + rest));
                },
                None => {},
            }
        }
        i = i + 1;
    }
    proof {
        assert(views(interfaces@) + Seq::<Seq<char>>::empty() =~= views(interfaces@));
    }
    let fields = match parse_fields(&class_file.fields, &class_file.constant_pool) {
        Ok(f) => f,
        Err(e) => { return Err(e); },
    };
    let methods = match parse_methods(&class_file.methods, &class_file.constant_pool) {
        Ok(m) => m,
        Err(e) => { return Err(e); },
    };
    let attributes = match parse_attributes(&class_file.attributes, &class_file.constant_pool) {
        Ok(a) => a,
        Err(e) => { return Err(e); },
    };
    Ok(
        Class {
            access,
            constant_pool,
            raw_pool: class_file.constant_pool,
            this_class,
            super_class,
            interfaces,
            fields,
            methods,
            attributes,
        },
    )
}

} // verus!
