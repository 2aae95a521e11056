//! Decoding, parsing, resolving, and the parts of the machine taken one at
//! a time.

use matebabe::descriptor::{
    parse_field_descriptor, parse_field_type, parse_method_descriptor, same_descriptor, same_type,
    FieldType, ReturnDescriptor,
};
use matebabe::deserialize::{
    deserialize_attributes, deserialize_class_file, deserialize_constant_pool, CPInfo,
};
use matebabe::error::VmError;
use matebabe::frame::{Flow, Frame, Throwable};
use matebabe::heap::Heap;
use matebabe::instr::{decode, Element, FloatOp, Instr, InvokeKind, StackOp};
use matebabe::cell::{Binary, Cond, Narrow, Shift};
use matebabe::klass::{Klass, MethodArea};
use matebabe::memory::{Ensured, GlobalMemory, Loading};
use matebabe::native::{lookup_native, wrapper_of, Native};
use matebabe::parse::{
    parse, parse_attribute, parse_code, parse_or_get_constant, parse_utf8_info, resolve_entry,
    Attribute, ClassAccess, Constant, ExceptionTableItem, FieldAccess, MethodAccess, RefKind,
};
use matebabe::reader::{read_bytes, read_i16, read_i32, read_u16, read_u32, read_u8};

/// A class file with one constant of every kind, one interface, one field
/// and one method with code.
fn sample() -> Vec<u8> {
    let mut out: Vec<u8> = vec![0xca, 0xfe, 0xba, 0xbe, 0, 3, 0, 55];
    let mut pool: Vec<u8> = Vec::new();
    let utf8 = |pool: &mut Vec<u8>, text: &str| {
        pool.push(1);
        pool.extend_from_slice(&(text.len() as u16).to_be_bytes());
        pool.extend_from_slice(text.as_bytes());
    };
    utf8(&mut pool, "Sample"); // 1
    pool.extend_from_slice(&[7, 0, 1]); // 2: class Sample
    utf8(&mut pool, "java/lang/Object"); // 3
    pool.extend_from_slice(&[7, 0, 3]); // 4: class Object
    utf8(&mut pool, "Shape"); // 5
    pool.extend_from_slice(&[7, 0, 5]); // 6: class Shape
    utf8(&mut pool, "count"); // 7
    utf8(&mut pool, "J"); // 8
    pool.extend_from_slice(&[12, 0, 7, 0, 8]); // 9: count:J
    pool.extend_from_slice(&[9, 0, 2, 0, 9]); // 10: field Sample.count:J
    utf8(&mut pool, "run"); // 11
    utf8(&mut pool, "(I[Ljava/lang/String;)V"); // 12
    pool.extend_from_slice(&[12, 0, 11, 0, 12]); // 13
    pool.extend_from_slice(&[10, 0, 2, 0, 13]); // 14: method Sample.run
    pool.extend_from_slice(&[11, 0, 6, 0, 13]); // 15: interface method Shape.run
    pool.extend_from_slice(&[8, 0, 5]); // 16: string "Shape"
    pool.extend_from_slice(&[3, 0xff, 0xff, 0xff, 0xfe]); // 17: int -2
    pool.extend_from_slice(&[4, 0x3f, 0x80, 0, 0]); // 18: float 1.0
    pool.extend_from_slice(&[5, 0xff, 0xff, 0xff, 0xff, 0xff, 0xff, 0xff, 0xfd]); // 19, 20: long -3
    pool.extend_from_slice(&[6, 0x3f, 0xf0, 0, 0, 0, 0, 0, 0]); // 21, 22: double 1.0
    pool.extend_from_slice(&[15, 6, 0, 14]); // 23: handle invokestatic Sample.run
    pool.extend_from_slice(&[16, 0, 12]); // 24: method type
    pool.extend_from_slice(&[18, 0, 0, 0, 13]); // 25: invokedynamic
    utf8(&mut pool, "Code"); // 26
    utf8(&mut pool, "Other"); // 27
    out.extend_from_slice(&28u16.to_be_bytes());
    out.extend_from_slice(&pool);
    out.extend_from_slice(&[0x00, 0x31]); // public final super
    out.extend_from_slice(&[0, 2, 0, 4]); // this, super
    out.extend_from_slice(&[0, 1, 0, 6]); // one interface
    out.extend_from_slice(&[0, 1]); // one field
    out.extend_from_slice(&[0x00, 0x0a, 0, 7, 0, 8, 0, 1]); // private static count:J, one attribute
    out.extend_from_slice(&[0, 27, 0, 0, 0, 2, 9, 9]); // attribute Other
    out.extend_from_slice(&[0, 1]); // one method
    out.extend_from_slice(&[0x00, 0x09, 0, 11, 0, 12, 0, 1]); // public static run, one attribute
    let code = [0x03u8, 0xac];
    let mut body: Vec<u8> = vec![0, 2, 0, 3];
    body.extend_from_slice(&(code.len() as u32).to_be_bytes());
    body.extend_from_slice(&code);
    body.extend_from_slice(&[0, 1, 0, 0, 0, 1, 0, 1, 0, 4]); // one handler
    body.extend_from_slice(&[0, 0]);
    out.extend_from_slice(&[0, 26]);
    out.extend_from_slice(&(body.len() as u32).to_be_bytes());
    out.extend_from_slice(&body);
    out.extend_from_slice(&[0, 0]); // no class attributes
    out
}

#[test]
fn reader_reads_big_endian() {
    let buf = [0x12, 0x34, 0x56, 0x78, 0xff, 0xfe];
    assert_eq!(read_u8(&buf, 0), Some(0x12));
    assert_eq!(read_u8(&buf, 6), None);
    assert_eq!(read_u16(&buf, 0), Some(0x1234));
    assert_eq!(read_u16(&buf, 4), Some(0xfffe));
    assert_eq!(read_u16(&buf, 5), None);
    assert_eq!(read_u32(&buf, 1), Some(0x3456_78ff));
    assert_eq!(read_u32(&buf, 3), None);
    assert_eq!(read_i16(&buf, 4), Some(-2));
    assert_eq!(read_i16(&buf, 0), Some(0x1234));
    assert_eq!(read_i32(&buf, 2), Some(0x5678_fffe));
    assert_eq!(read_i32(&[0xff, 0xff, 0xff, 0xfd], 0), Some(-3));
    assert_eq!(read_i32(&buf, usize::MAX), None);
    assert_eq!(read_bytes(&buf, 1, 3), Some(vec![0x34, 0x56, 0x78]));
    assert_eq!(read_bytes(&buf, 6, 0), Some(vec![]));
    assert_eq!(read_bytes(&buf, 4, 3), None);
}

#[test]
fn class_file_is_decoded() {
    let file = deserialize_class_file(&sample()).unwrap();
    assert_eq!(file.magic, 0xcafe_babe);
    assert_eq!(file.minor_version, 3);
    assert_eq!(file.major_version, 55);
    assert_eq!(file.constant_pool_count, 28);
    assert_eq!(file.constant_pool.len(), 27);
    assert_eq!(file.access_flags, 0x31);
    assert_eq!(file.this_class, 2);
    assert_eq!(file.super_class, 4);
    assert_eq!(file.interfaces_count, 1);
    assert_eq!(file.interfaces, vec![6]);
    assert_eq!(file.fields_count, 1);
    assert_eq!(file.fields[0].access_flags, 0x0a);
    assert_eq!(file.fields[0].name_index, 7);
    assert_eq!(file.fields[0].descriptor_index, 8);
    assert_eq!(file.fields[0].attributes[0].attribute_name_index, 27);
    assert_eq!(file.fields[0].attributes[0].attribute_length, 2);
    assert_eq!(file.fields[0].attributes[0].info, vec![9, 9]);
    assert_eq!(file.methods_count, 1);
    assert_eq!(file.methods[0].name_index, 11);
    assert_eq!(file.methods[0].attributes_count, 1);
    assert_eq!(file.attributes_count, 0);
    assert!(matches!(
        &file.constant_pool[0],
        CPInfo::ConstantUtf8Info { tag: 1, length: 6, bytes } if bytes.as_slice() == b"Sample"
    ));
    assert!(matches!(file.constant_pool[1], CPInfo::ConstantClassInfo { tag: 7, name_index: 1 }));
    assert!(matches!(
        file.constant_pool[9],
        CPInfo::ConstantFieldRefInfo { tag: 9, class_index: 2, name_and_type_index: 9 }
    ));
    assert!(matches!(
        file.constant_pool[16],
        CPInfo::ConstantIntegerInfo { tag: 3, bytes: 0xffff_fffe }
    ));
    assert!(matches!(
        file.constant_pool[18],
        CPInfo::ConstantLongInfo { tag: 5, high_bytes: 0xffff_ffff, low_bytes: 0xffff_fffd }
    ));
    assert!(matches!(file.constant_pool[19], CPInfo::Unusable));
    assert!(matches!(file.constant_pool[21], CPInfo::Unusable));
    assert!(matches!(
        file.constant_pool[22],
        CPInfo::ConstantMethodHandleInfo { tag: 15, reference_kind: 6, reference_index: 14 }
    ));
}

#[test]
fn bad_magic_is_refused() {
    let mut bytes = sample();
    bytes[3] = 0xbf;
    assert_eq!(deserialize_class_file(&bytes).err(), Some(VmError::Format));
}

#[test]
fn version_above_55_is_refused() {
    let mut bytes = sample();
    bytes[7] = 56;
    assert_eq!(deserialize_class_file(&bytes).err(), Some(VmError::Format));
    bytes[7] = 45;
    assert!(deserialize_class_file(&bytes).is_ok());
}

#[test]
fn truncated_class_file_is_refused() {
    let bytes = sample();
    for n in 0..bytes.len() {
        assert_eq!(deserialize_class_file(&bytes[..n]).err(), Some(VmError::Format), "{}", n);
    }
    let mut longer = bytes.clone();
    longer.push(0);
    assert!(deserialize_class_file(&longer).is_ok());
}

#[test]
fn unknown_constant_tag_is_refused() {
    assert_eq!(deserialize_constant_pool(&[2, 0, 0], 0).err(), Some(VmError::Format));
    assert_eq!(deserialize_constant_pool(&[19, 0, 0], 0).err(), Some(VmError::Format));
    assert_eq!(deserialize_constant_pool(&[], 0).err(), Some(VmError::Format));
    let (entry, next) = deserialize_constant_pool(&[0, 8, 0, 9], 1).unwrap();
    assert!(matches!(entry, CPInfo::ConstantStringInfo { tag: 8, string_index: 9 }));
    assert_eq!(next, 4);
}

#[test]
fn long_in_the_last_slot_is_refused() {
    let mut bytes: Vec<u8> = vec![0xca, 0xfe, 0xba, 0xbe, 0, 0, 0, 55, 0, 2];
    bytes.extend_from_slice(&[5, 0, 0, 0, 0, 0, 0, 0, 1]);
    bytes.extend_from_slice(&[0; 16]);
    assert_eq!(deserialize_class_file(&bytes).err(), Some(VmError::Format));
    bytes[9] = 3;
    assert!(deserialize_class_file(&bytes).is_ok());
    bytes[9] = 0;
    assert_eq!(deserialize_class_file(&bytes).err(), Some(VmError::Format));
}

#[test]
fn attributes_are_length_prefixed() {
    let bytes = [0, 1, 0, 0, 0, 1, 7, 0, 2, 0, 0, 0, 0];
    let (list, end) = deserialize_attributes(&bytes, 0, 2).unwrap();
    assert_eq!(end, 13);
    assert_eq!(list[0].info, vec![7]);
    assert_eq!(list[1].attribute_name_index, 2);
    assert_eq!(list[1].info, Vec::<u8>::new());
    assert_eq!(deserialize_attributes(&bytes, 0, 3).err(), Some(VmError::Format));
    assert_eq!(deserialize_attributes(&[0, 1, 0, 0, 0, 9, 7], 0, 1).err(), Some(VmError::Format));
    assert_eq!(list[0].attribute_length, 1);
    assert_eq!(list[1].attribute_length, 0);
    // A position past the end is refused, whatever the count.
    assert_eq!(deserialize_attributes(&bytes, 14, 0).err(), Some(VmError::Format));
    assert_eq!(deserialize_attributes(&bytes, usize::MAX, 1).err(), Some(VmError::Format));
    assert_eq!(deserialize_attributes(&bytes, 13, 0).map(|(list, end)| (list.len(), end)), Ok((0, 13)));
}

#[test]
fn class_is_parsed() {
    let class = parse(deserialize_class_file(&sample()).unwrap()).unwrap();
    assert_eq!(
        class.access,
        ClassAccess { public: true, is_final: true, is_super: true, interface: false }
    );
    assert_eq!(class.this_class.name, "Sample");
    assert_eq!(class.super_class.as_ref().map(|c| c.name.as_str()), Some("java/lang/Object"));
    assert_eq!(class.interfaces.len(), 1);
    assert_eq!(class.interfaces[0].name, "Shape");
    assert_eq!(class.fields.len(), 1);
    assert_eq!(class.fields[0].name, "count");
    assert_eq!(class.fields[0].descriptor.field_type, FieldType::LongInteger);
    assert!(class.fields[0].access.is_static);
    assert!(class.fields[0].access.private);
    assert!(matches!(class.fields[0].attributes[0], Attribute::Placeholder));
    assert_eq!(class.methods.len(), 1);
    assert_eq!(class.methods[0].name, "run");
    assert_eq!(
        class.methods[0].descriptor.parameter_descriptors,
        vec![
            FieldType::Integer,
            FieldType::Array(Box::new(FieldType::ClassInstance("java/lang/String".to_string())))
        ]
    );
    assert_eq!(class.methods[0].descriptor.return_descriptor, ReturnDescriptor::VoidDescriptor);
    let code = class.methods[0].attributes[0].as_code().unwrap();
    assert_eq!(code.0, vec![0x03, 0xac]);
    assert_eq!(code.1, 2);
    assert_eq!(code.2, 3);
    assert_eq!(
        code.3,
        vec![ExceptionTableItem { start_pc: 0, end_pc: 1, handler_pc: 1, catch_type: 4 }]
    );
    assert!(Attribute::Placeholder.as_code().is_none());
    // Resolved so far: the class, its superclass and its interface.
    assert!(matches!(&class.constant_pool[1], Constant::Class(c) if c.name == "Sample"));
    assert!(matches!(&class.constant_pool[3], Constant::Class(_)));
    assert!(matches!(&class.constant_pool[5], Constant::Class(_)));
    assert!(matches!(&class.constant_pool[0], Constant::Placeholder));
    assert!(matches!(&class.constant_pool[9], Constant::Placeholder));
    assert_eq!(class.raw_pool.len(), 27);
}

#[test]
fn constants_are_resolved() {
    let file = deserialize_class_file(&sample()).unwrap();
    let raw = &file.constant_pool;
    assert!(matches!(resolve_entry(raw, 1), Ok(Constant::Utf8(t)) if t == "Sample"));
    assert!(matches!(resolve_entry(raw, 2), Ok(Constant::Class(c)) if c.name == "Sample"));
    match resolve_entry(raw, 10).unwrap() {
        Constant::FieldRef(class, member) => {
            assert_eq!(class.name, "Sample");
            assert_eq!(member.as_name_and_type(), Some(("count".to_string(), "J".to_string())));
        }
        other => panic!("{:?}", other),
    }
    let method = resolve_entry(raw, 14).unwrap();
    let (class, member) = method.as_method_ref().unwrap();
    assert_eq!(class.name, "Sample");
    assert_eq!(
        member.as_name_and_type(),
        Some(("run".to_string(), "(I[Ljava/lang/String;)V".to_string()))
    );
    assert!(method.as_field_ref().is_none());
    assert!(method.as_class().is_none());
    assert!(method.as_utf8().is_none());
    assert!(method.as_name_and_type().is_none());
    let interface = resolve_entry(raw, 15).unwrap();
    assert_eq!(interface.as_method_ref().unwrap().0.name, "Shape");
    assert!(matches!(resolve_entry(raw, 16), Ok(Constant::String(t)) if t == "Shape"));
    assert!(matches!(resolve_entry(raw, 17), Ok(Constant::Integer(-2))));
    assert!(matches!(resolve_entry(raw, 18), Ok(Constant::Float(0x3f80_0000))));
    assert!(matches!(resolve_entry(raw, 19), Ok(Constant::Long(-3))));
    assert!(matches!(resolve_entry(raw, 21), Ok(Constant::Double(0x3ff0_0000_0000_0000))));
    match resolve_entry(raw, 23).unwrap() {
        Constant::MethodHandle(kind, inner) => {
            assert_eq!(kind, RefKind::InvokeStatic);
            assert!(inner.as_method_ref().is_some());
        }
        other => panic!("{:?}", other),
    }
    assert!(
        matches!(resolve_entry(raw, 24), Ok(Constant::MethodType(t)) if t == "(I[Ljava/lang/String;)V")
    );
    match resolve_entry(raw, 25).unwrap() {
        Constant::InvokeDynamic(index, inner) => {
            assert_eq!(index, 0);
            assert!(inner.as_name_and_type().is_some());
        }
        other => panic!("{:?}", other),
    }
    let class = resolve_entry(raw, 2).unwrap();
    assert_eq!(class.as_class().map(|c| c.name.as_str()), Some("Sample"));
    assert_eq!(resolve_entry(raw, 1).unwrap().as_utf8().map(|t| t.as_str()), Some("Sample"));
}

#[test]
fn what_cannot_be_resolved_is_refused() {
    let file = deserialize_class_file(&sample()).unwrap();
    let raw = &file.constant_pool;
    assert_eq!(resolve_entry(raw, 0).err(), Some(VmError::Resolution));
    assert_eq!(resolve_entry(raw, 28).err(), Some(VmError::Resolution));
    assert_eq!(resolve_entry(raw, 20).err(), Some(VmError::Resolution));
    assert_eq!(resolve_entry(raw, 22).err(), Some(VmError::Resolution));
    // A class whose name is no Utf8 constant, a reference whose class is none, a string
    // of invalid bytes, a handle of an unknown kind.
    let broken = vec![
        CPInfo::ConstantClassInfo { tag: 7, name_index: 1 },
        CPInfo::ConstantUtf8Info { tag: 1, length: 2, bytes: vec![0xc3, 0x28] },
        CPInfo::ConstantStringInfo { tag: 8, string_index: 2 },
        CPInfo::ConstantUtf8Info { tag: 1, length: 1, bytes: vec![b'x'] },
        CPInfo::ConstantNameAndTypeInfo { tag: 12, name_index: 4, descriptor_index: 4 },
        CPInfo::ConstantMethodRefInfo { tag: 10, class_index: 4, name_and_type_index: 5 },
        CPInfo::ConstantClassInfo { tag: 7, name_index: 4 },
        CPInfo::ConstantMethodRefInfo { tag: 10, class_index: 7, name_and_type_index: 5 },
        CPInfo::ConstantMethodHandleInfo { tag: 15, reference_kind: 10, reference_index: 8 },
        CPInfo::ConstantMethodHandleInfo { tag: 15, reference_kind: 9, reference_index: 5 },
        CPInfo::ConstantFieldRefInfo { tag: 9, class_index: 7, name_and_type_index: 4 },
    ];
    for index in [1, 2, 3, 6, 9, 10, 11] {
        assert_eq!(resolve_entry(&broken, index).err(), Some(VmError::Resolution), "{}", index);
    }
    for index in [4, 5, 7, 8] {
        assert!(resolve_entry(&broken, index).is_ok(), "{}", index);
    }
    assert_eq!(parse_utf8_info(&broken[0]).err(), Some(VmError::Resolution));
    assert_eq!(parse_utf8_info(&broken[1]).err(), Some(VmError::Resolution));
    assert_eq!(parse_utf8_info(&broken[3]), Ok("x".to_string()));
}

#[test]
fn resolution_is_remembered() {
    let file = deserialize_class_file(&sample()).unwrap();
    let raw = &file.constant_pool;
    let mut pool: Vec<Constant> = (0..raw.len()).map(|_| Constant::Placeholder).collect();
    let first = parse_or_get_constant(&mut pool, raw, 14).unwrap();
    assert!(matches!(&pool[13], Constant::MethodRef(_, _)));
    let filled = pool.iter().filter(|c| !matches!(c, Constant::Placeholder)).count();
    assert_eq!(filled, 1);
    let second = parse_or_get_constant(&mut pool, raw, 14).unwrap();
    assert_eq!(
        first.as_method_ref().unwrap().1.as_name_and_type(),
        second.as_method_ref().unwrap().1.as_name_and_type()
    );
    // What the slot holds is what a later call returns.
    pool[13] = Constant::Integer(9);
    assert!(matches!(parse_or_get_constant(&mut pool, raw, 14), Ok(Constant::Integer(9))));
    assert_eq!(parse_or_get_constant(&mut pool, raw, 0).err(), Some(VmError::Resolution));
    assert_eq!(parse_or_get_constant(&mut pool, raw, 20).err(), Some(VmError::Resolution));
    assert!(matches!(&pool[19], Constant::Placeholder));
}

#[test]
fn parse_fails_by_the_first_part_that_fails() {
    let mut file = deserialize_class_file(&sample()).unwrap();
    file.this_class = 3;
    assert_eq!(parse(file).err(), Some(VmError::Resolution));
    let mut file = deserialize_class_file(&sample()).unwrap();
    file.super_class = 0;
    assert!(parse(file).unwrap().super_class.is_none());
    let mut file = deserialize_class_file(&sample()).unwrap();
    file.interfaces[0] = 1;
    assert_eq!(parse(file).err(), Some(VmError::Resolution));
    let mut file = deserialize_class_file(&sample()).unwrap();
    file.fields[0].descriptor_index = 7;
    assert_eq!(parse(file).err(), Some(VmError::Descriptor));
    let mut file = deserialize_class_file(&sample()).unwrap();
    file.methods[0].descriptor_index = 8;
    assert_eq!(parse(file).err(), Some(VmError::Descriptor));
    let mut file = deserialize_class_file(&sample()).unwrap();
    file.methods[0].attributes[0].info.truncate(5);
    assert_eq!(parse(file).err(), Some(VmError::Format));
    let mut file = deserialize_class_file(&sample()).unwrap();
    file.methods[0].attributes[0].attribute_name_index = 2;
    assert_eq!(parse(file).err(), Some(VmError::Resolution));
}

#[test]
fn code_attribute_is_parsed() {
    let info = vec![0, 1, 0, 2, 0, 0, 0, 1, 0xb1, 0, 0, 0, 0];
    match parse_code(&info).unwrap() {
        Attribute::Code { max_stack, max_locals, bytes, exception_table } => {
            assert_eq!(max_stack, 1);
            assert_eq!(max_locals, 2);
            assert_eq!(bytes, vec![0xb1]);
            assert!(exception_table.is_empty());
        }
        Attribute::Placeholder => panic!("it is code"),
    }
    assert_eq!(parse_code(&info[..10].to_vec()).err(), Some(VmError::Format));
    assert_eq!(parse_code(&vec![0, 1, 0, 2, 0, 0, 0, 9, 0xb1, 0, 0]).err(), Some(VmError::Format));
    assert_eq!(
        parse_code(&vec![0, 1, 0, 2, 0, 0, 0, 1, 0xb1, 0, 1, 0, 0]).err(),
        Some(VmError::Format)
    );
    let file = deserialize_class_file(&sample()).unwrap();
    let other = &file.fields[0].attributes[0];
    assert!(matches!(parse_attribute(other, &file.constant_pool), Ok(Attribute::Placeholder)));
}

#[test]
fn access_flags_are_decoded() {
    assert_eq!(
        ClassAccess::new(0x0201),
        ClassAccess { public: true, is_final: false, is_super: false, interface: true }
    );
    let field = FieldAccess::new(0x0008 | 0x0010 | 0x0040 | 0x4000);
    assert!(field.is_static && field.is_final && field.volatile && field.is_enum);
    assert!(!field.public && !field.private && !field.protected && !field.transient);
    let method = MethodAccess::new(0x0100 | 0x0001 | 0x0400);
    assert!(method.native && method.public && method.is_abstract);
    assert!(!method.is_static && !method.synchronized && !method.strict && !method.bridge);
    assert!(MethodAccess::new(0x0008).is_static);
    assert!(MethodAccess::new(0x0020).synchronized);
    assert!(MethodAccess::new(0x1000).synthetic);
}

#[test]
fn field_descriptors_are_parsed() {
    let parsed = |text: &str| parse_field_descriptor(&text.to_string()).map(|d| d.field_type);
    assert_eq!(parsed("I"), Ok(FieldType::Integer));
    assert_eq!(parsed("J"), Ok(FieldType::LongInteger));
    assert_eq!(parsed("Z"), Ok(FieldType::Boolean));
    assert_eq!(parsed("B"), Ok(FieldType::Byte));
    assert_eq!(parsed("C"), Ok(FieldType::Char));
    assert_eq!(parsed("S"), Ok(FieldType::Short));
    assert_eq!(parsed("D"), Ok(FieldType::Double));
    assert_eq!(parsed("F"), Ok(FieldType::Float));
    assert_eq!(parsed("La/B;"), Ok(FieldType::ClassInstance("a/B".to_string())));
    assert_eq!(parsed("L;"), Ok(FieldType::ClassInstance(String::new())));
    assert_eq!(
        parsed("[[Lx;"),
        Ok(FieldType::Array(Box::new(FieldType::Array(Box::new(FieldType::ClassInstance(
            "x".to_string()
        ))))))
    );
    assert_eq!(parsed("L\u{e9}t\u{e9};"), Ok(FieldType::ClassInstance("\u{e9}t\u{e9}".to_string())));
    assert_eq!(parsed("Irest"), Ok(FieldType::Integer));
    for bad in ["", "V", "X", "La/B", "[", "[[", "[Q", "null"] {
        assert_eq!(parsed(bad), Err(VmError::Descriptor), "{}", bad);
    }
    assert_eq!(parse_field_type("(IJ)", 2), Ok((FieldType::LongInteger, 3)));
    assert_eq!(parse_field_type("(IJ)", 3), Err(VmError::Descriptor));
    assert_eq!(parse_field_type("(IJ)", 9), Err(VmError::Descriptor));
}

#[test]
fn field_types_tell_what_they_are() {
    let class = FieldType::ClassInstance("a/B".to_string());
    let array = FieldType::Array(Box::new(FieldType::Double));
    assert_eq!(class.as_class_instance(), Some(&"a/B".to_string()));
    assert_eq!(class.as_array(), None);
    assert_eq!(array.as_array(), Some(&FieldType::Double));
    assert_eq!(array.as_class_instance(), None);
    assert_eq!(FieldType::Integer.as_class_instance(), None);
    assert_eq!(FieldType::LongInteger.width(), 2);
    assert_eq!(FieldType::Double.width(), 2);
    assert_eq!(array.width(), 1);
    assert_eq!(class.width(), 1);
    assert_eq!(FieldType::Byte.width(), 1);
    assert_eq!(array.clone(), array);
    assert!(same_type(&class, &FieldType::ClassInstance("a/B".to_string())));
    assert!(!same_type(&class, &FieldType::ClassInstance("a/C".to_string())));
    assert!(!same_type(&class, &array));
    assert!(same_type(&array, &FieldType::Array(Box::new(FieldType::Double))));
    assert!(!same_type(&array, &FieldType::Array(Box::new(FieldType::Float))));
    assert!(!same_type(&FieldType::Integer, &FieldType::Short));
}

#[test]
fn method_descriptors_are_parsed() {
    let d = parse_method_descriptor("(I[JLa/B;D)Lc;".to_string()).unwrap();
    assert_eq!(
        d.parameter_descriptors,
        vec![
            FieldType::Integer,
            FieldType::Array(Box::new(FieldType::LongInteger)),
            FieldType::ClassInstance("a/B".to_string()),
            FieldType::Double
        ]
    );
    assert_eq!(
        d.return_descriptor,
        ReturnDescriptor::FieldType(FieldType::ClassInstance("c".to_string()))
    );
    assert_eq!(d.argument_width(), Some(5));
    let empty = parse_method_descriptor("()V".to_string()).unwrap();
    assert!(empty.parameter_descriptors.is_empty());
    assert_eq!(empty.return_descriptor, ReturnDescriptor::VoidDescriptor);
    assert_eq!(empty.argument_width(), Some(0));
    assert!(same_descriptor(&empty, &parse_method_descriptor("()V".to_string()).unwrap()));
    assert!(!same_descriptor(&empty, &parse_method_descriptor("()I".to_string()).unwrap()));
    assert!(!same_descriptor(&empty, &parse_method_descriptor("(I)V".to_string()).unwrap()));
    assert!(!same_descriptor(&d, &parse_method_descriptor("(I[JLa/B;F)Lc;".to_string()).unwrap()));
    assert!(same_descriptor(&d, &parse_method_descriptor("(I[JLa/B;D)Lc;".to_string()).unwrap()));
    for bad in ["", "I", "(", "(I", "(I)", "()", "(V)V", "(La;", "(Q)V", ")V", "(I)X"] {
        assert_eq!(
            parse_method_descriptor(bad.to_string()).err(),
            Some(VmError::Descriptor),
            "{}",
            bad
        );
    }
}

#[test]
fn heap_is_append_only() {
    let mut heap = Heap::new();
    assert_eq!(heap.data.len(), 1);
    assert_eq!(heap.data[0].field_descriptor, "null");
    assert!(heap.data[0].data.is_empty());
    assert!(!heap.is_full());
    let a = heap.store("[I".to_string(), vec![1, 2]);
    let b = heap.store("LX;".to_string(), vec![]);
    assert_eq!((a, b), (1, 2));
    assert_eq!(heap.load(1).map(|o| o.data.clone()), Some(vec![1, 2]));
    assert_eq!(heap.load(2).map(|o| o.field_descriptor.as_str()), Some("LX;"));
    assert!(heap.load(3).is_none());
    heap.load_mut(1).data[0] = 9;
    assert_eq!(heap.data[1].data, vec![9, 2]);
    assert_eq!(heap.allocate_array("J", 3), Ok(3));
    assert_eq!(heap.data[3].field_descriptor, "[J");
    assert_eq!(heap.data[3].data, vec![0; 6]);
    assert_eq!(heap.allocate_array("Ljava/lang/Object;", 2), Ok(4));
    assert_eq!(heap.data[4].field_descriptor, "[Ljava/lang/Object;");
    assert_eq!(heap.data[4].data, vec![0; 2]);
    assert_eq!(heap.allocate_array("[J", 1), Ok(5));
    assert_eq!(heap.data[5].data, vec![0]);
    assert_eq!(heap.allocate_array("D", usize::MAX), Err(VmError::OutOfMemory));
    assert_eq!(heap.data.len(), 6);
    assert!(heap.data[3].is_array());
    assert!(!heap.data[2].is_array());
    assert_eq!(heap.data[3].element_width(), 2);
    assert_eq!(heap.data[4].element_width(), 1);
}

fn frame(code: &[u8], max_stack: usize, locals: usize) -> Frame {
    Frame {
        local_variables: vec![0; locals],
        operand_stack: Vec::new(),
        max_stack,
        constant_pool: 0,
        code_bytes: Some(code.to_vec()),
        exception_table: Some(Vec::new()),
        instruction_counter: 0,
        class_name: "T".to_string(),
        method_name: "t".to_string(),
        running_native: false,
    }
}

#[test]
fn stack_instructions_rearrange_cells() {
    let run = |op: StackOp, stack: &[u32]| -> Result<Vec<u32>, VmError> {
        let mut f = frame(&[0], 8, 0);
        f.operand_stack = stack.to_vec();
        match f.run_stack_only(Instr::Stack(op), 1)? {
            Flow::Next => {
                assert_eq!(f.instruction_counter, 1);
                Ok(f.operand_stack)
            }
            Flow::Raise(_) => panic!("nothing is raised"),
        }
    };
    assert_eq!(run(StackOp::Pop, &[1, 2]), Ok(vec![1]));
    assert_eq!(run(StackOp::Pop2, &[1, 2, 3]), Ok(vec![1]));
    assert_eq!(run(StackOp::Dup, &[1, 2]), Ok(vec![1, 2, 2]));
    assert_eq!(run(StackOp::DupX1, &[1, 2]), Ok(vec![2, 1, 2]));
    assert_eq!(run(StackOp::DupX2, &[1, 2, 3]), Ok(vec![3, 1, 2, 3]));
    assert_eq!(run(StackOp::Dup2, &[1, 2]), Ok(vec![1, 2, 1, 2]));
    assert_eq!(run(StackOp::Dup2X1, &[1, 2, 3]), Ok(vec![2, 3, 1, 2, 3]));
    assert_eq!(run(StackOp::Dup2X2, &[1, 2, 3, 4]), Ok(vec![3, 4, 1, 2, 3, 4]));
    assert_eq!(run(StackOp::Swap, &[1, 2]), Ok(vec![2, 1]));
    assert_eq!(run(StackOp::Swap, &[1]), Err(VmError::StackUnderflow));
    assert_eq!(run(StackOp::Dup2X2, &[1, 2, 3]), Err(VmError::StackUnderflow));
    assert_eq!(run(StackOp::Dup2, &[1, 2, 3, 4, 5, 6, 7]), Err(VmError::StackOverflow));
}

#[test]
fn division_by_zero_raises_and_keeps_the_frame() {
    let mut f = frame(&[0x6c], 2, 0);
    f.operand_stack = vec![7, 0];
    assert_eq!(f.run_stack_only(Instr::IntBinary(Binary::Div), 1), Ok(Flow::Raise(Throwable::Arithmetic)));
    assert_eq!(f.operand_stack, vec![7, 0]);
    assert_eq!(f.instruction_counter, 0);
    f.operand_stack = vec![7, 2];
    assert_eq!(f.run_stack_only(Instr::IntBinary(Binary::Div), 1), Ok(Flow::Next));
    assert_eq!(f.operand_stack, vec![3]);
    assert_eq!(f.instruction_counter, 1);
}

#[test]
fn long_instructions_take_two_cells_for_each_value() {
    let mut f = frame(&[0], 4, 4);
    f.operand_stack = vec![0, 0xffff_ffff, 0, 1];
    assert_eq!(f.run_stack_only(Instr::LongBinary(Binary::Add), 1), Ok(Flow::Next));
    assert_eq!(f.operand_stack, vec![1, 0]);
    assert_eq!(f.run_stack_only(Instr::LongShift(Shift::Left), 1), Err(VmError::StackUnderflow));
    f.operand_stack.push(4);
    assert_eq!(f.run_stack_only(Instr::LongShift(Shift::Left), 1), Ok(Flow::Next));
    assert_eq!(f.operand_stack, vec![0x10, 0]);
    assert_eq!(f.run_local_access(Instr::Store2(2), 1), Ok(Flow::Next));
    assert_eq!(f.local_variables, vec![0, 0, 0x10, 0]);
    assert!(f.operand_stack.is_empty());
    assert_eq!(f.run_local_access(Instr::Load2(2), 1), Ok(Flow::Next));
    assert_eq!(f.operand_stack, vec![0x10, 0]);
    assert_eq!(f.run_local_access(Instr::Load2(3), 1), Err(VmError::BadLocal));
    assert_eq!(f.run_local_access(Instr::Store2(3), 1), Err(VmError::BadLocal));
    assert_eq!(f.run_stack_only(Instr::Truncate, 1), Ok(Flow::Next));
    assert_eq!(f.operand_stack, vec![0]);
    f.operand_stack = vec![0xffff_fff0];
    assert_eq!(f.run_stack_only(Instr::Widen, 1), Ok(Flow::Next));
    assert_eq!(f.operand_stack, vec![0xffff_ffff, 0xffff_fff0]);
    f.operand_stack.extend_from_slice(&[0, 0]);
    assert_eq!(f.run_stack_only(Instr::LongOrder, 1), Ok(Flow::Next));
    assert_eq!(f.operand_stack, vec![0xffff_ffff]);
    assert_eq!(f.run_stack_only(Instr::Narrow(Narrow::Char), 1), Ok(Flow::Next));
    assert_eq!(f.operand_stack, vec![0xffff]);
}

#[test]
fn branches_count_from_their_own_address() {
    let mut f = frame(&[0; 20], 2, 0);
    f.instruction_counter = 10;
    f.operand_stack = vec![0];
    assert_eq!(f.run_branch(Instr::If(Cond::Eq, -4), 3), Ok(Flow::Next));
    assert_eq!(f.instruction_counter, 6);
    assert!(f.operand_stack.is_empty());
    f.operand_stack = vec![1];
    assert_eq!(f.run_branch(Instr::If(Cond::Eq, -4), 3), Ok(Flow::Next));
    assert_eq!(f.instruction_counter, 9);
    f.operand_stack = vec![1, 2];
    assert_eq!(f.run_branch(Instr::IfInt(Cond::Lt, 5), 3), Ok(Flow::Next));
    assert_eq!(f.instruction_counter, 14);
    f.operand_stack = vec![7, 7];
    assert_eq!(f.run_branch(Instr::IfReference(false, 5), 3), Ok(Flow::Next));
    assert_eq!(f.instruction_counter, 17);
    f.operand_stack = vec![0];
    assert_eq!(f.run_branch(Instr::IfNull(true, 2), 3), Ok(Flow::Next));
    assert_eq!(f.instruction_counter, 19);
    assert_eq!(f.run_branch(Instr::Goto(1), 3), Err(VmError::BadCode));
    assert_eq!(f.run_branch(Instr::Goto(-20), 3), Err(VmError::BadCode));
    assert_eq!(f.instruction_counter, 19);
    assert_eq!(f.run_branch(Instr::Goto(-19), 3), Ok(Flow::Next));
    assert_eq!(f.instruction_counter, 0);
    assert_eq!(f.run_branch(Instr::If(Cond::Eq, 1), 3), Err(VmError::StackUnderflow));
}

#[test]
fn instructions_are_decoded() {
    let one = |bytes: &[u8]| decode(bytes, 0);
    assert_eq!(one(&[0x00]), Ok((Instr::Nop, 1)));
    assert_eq!(one(&[0x02]), Ok((Instr::Push1(0xffff_ffff), 1)));
    assert_eq!(one(&[0x08]), Ok((Instr::Push1(5), 1)));
    assert_eq!(one(&[0x0a]), Ok((Instr::Push2(0, 1), 1)));
    assert_eq!(one(&[0x0d]), Ok((Instr::Push1(2.0f32.to_bits()), 1)));
    assert_eq!(one(&[0x0f]), Ok((Instr::Push2((1.0f64.to_bits() >> 32) as u32, 0), 1)));
    assert_eq!(one(&[0x10, 0xfe]), Ok((Instr::Push1(0xffff_fffe), 2)));
    assert_eq!(one(&[0x11, 0x80, 0x00]), Ok((Instr::Push1(0xffff_8000), 3)));
    assert_eq!(one(&[0x12, 9]), Ok((Instr::Ldc(9), 2)));
    assert_eq!(one(&[0x13, 1, 2]), Ok((Instr::Ldc(0x102), 3)));
    assert_eq!(one(&[0x14, 1, 2]), Ok((Instr::Ldc2(0x102), 3)));
    assert_eq!(one(&[0x16, 7]), Ok((Instr::Load2(7), 2)));
    assert_eq!(one(&[0x27]), Ok((Instr::Load2(1), 1)));
    assert_eq!(one(&[0x2d]), Ok((Instr::Load1(3), 1)));
    assert_eq!(one(&[0x33]), Ok((Instr::ArrayLoad(Element::Byte), 1)));
    assert_eq!(one(&[0x3a, 4]), Ok((Instr::Store1(4), 2)));
    assert_eq!(one(&[0x4a]), Ok((Instr::Store2(3), 1)));
    assert_eq!(one(&[0x52]), Ok((Instr::ArrayStore(Element::Double), 1)));
    assert_eq!(one(&[0x5e]), Ok((Instr::Stack(StackOp::Dup2X2), 1)));
    assert_eq!(one(&[0x6c]), Ok((Instr::IntBinary(Binary::Div), 1)));
    assert_eq!(one(&[0x71]), Ok((Instr::LongBinary(Binary::Rem), 1)));
    assert_eq!(one(&[0x6a]), Ok((Instr::Float(FloatOp::FMul), 1)));
    assert_eq!(one(&[0x77]), Ok((Instr::Float(FloatOp::DNeg), 1)));
    assert_eq!(one(&[0x7d]), Ok((Instr::LongShift(Shift::RightLogical), 1)));
    assert_eq!(one(&[0x82]), Ok((Instr::IntBinary(Binary::Xor), 1)));
    assert_eq!(one(&[0x84, 3, 0xff]), Ok((Instr::Increment(3, 0xffff_ffff), 3)));
    assert_eq!(one(&[0x85]), Ok((Instr::Widen, 1)));
    assert_eq!(one(&[0x88]), Ok((Instr::Truncate, 1)));
    assert_eq!(one(&[0x90]), Ok((Instr::Float(FloatOp::D2F), 1)));
    assert_eq!(one(&[0x93]), Ok((Instr::Narrow(Narrow::Short), 1)));
    assert_eq!(one(&[0x98]), Ok((Instr::Float(FloatOp::DCompareG), 1)));
    assert_eq!(one(&[0x9b, 0xff, 0xfd]), Ok((Instr::If(Cond::Lt, -3), 3)));
    assert_eq!(one(&[0xa4, 0, 9]), Ok((Instr::IfInt(Cond::Le, 9), 3)));
    assert_eq!(one(&[0xa6, 0, 9]), Ok((Instr::IfReference(false, 9), 3)));
    assert_eq!(one(&[0xa7, 0x80, 0]), Ok((Instr::Goto(-32768), 3)));
    assert_eq!(one(&[0xc8, 0xff, 0xff, 0xff, 0xf0]), Ok((Instr::Goto(-16), 5)));
    assert_eq!(one(&[0xaa]), Ok((Instr::TableSwitch, 0)));
    assert_eq!(one(&[0xab]), Ok((Instr::LookupSwitch, 0)));
    assert_eq!(one(&[0xad]), Ok((Instr::Return(2), 1)));
    assert_eq!(one(&[0xb0]), Ok((Instr::Return(1), 1)));
    assert_eq!(one(&[0xb1]), Ok((Instr::Return(0), 1)));
    assert_eq!(one(&[0xb5, 0, 2]), Ok((Instr::PutField(2), 3)));
    assert_eq!(one(&[0xb7, 0, 2]), Ok((Instr::Invoke(InvokeKind::Special, 2), 3)));
    assert_eq!(one(&[0xb9, 0, 2, 1, 0]), Ok((Instr::Invoke(InvokeKind::Interface, 2), 5)));
    assert_eq!(one(&[0xbc, 10]), Ok((Instr::NewArray(10), 2)));
    assert_eq!(one(&[0xc3]), Ok((Instr::Monitor, 1)));
    assert_eq!(one(&[0xc5, 0, 2, 1]), Ok((Instr::MultiNewArray(2, 1), 4)));
    assert_eq!(one(&[0xc7, 0, 2]), Ok((Instr::IfNull(false, 2), 3)));
    assert_eq!(one(&[0xc4, 0x15, 1, 2]), Ok((Instr::Load1(0x102), 4)));
    assert_eq!(one(&[0xc4, 0x39, 1, 2]), Ok((Instr::Store2(0x102), 4)));
    assert_eq!(
        one(&[0xc4, 0x84, 1, 2, 0xff, 0xfe]),
        Ok((Instr::Increment(0x102, 0xffff_fffe), 6))
    );
    assert_eq!(decode(&[0, 0x10, 5], 1), Ok((Instr::Push1(5), 2)));
}

#[test]
fn what_cannot_be_decoded_is_refused() {
    assert_eq!(decode(&[], 0), Err(VmError::BadCode));
    assert_eq!(decode(&[0], 1), Err(VmError::BadCode));
    for short in [
        vec![0x10u8],
        vec![0x11, 0],
        vec![0x84, 1],
        vec![0xb9, 0, 1, 1],
        vec![0xc5, 0, 1],
        vec![0xc8, 0, 0, 0],
        vec![0xc4],
        vec![0xc4, 0x15, 0],
        vec![0xc4, 0x84, 0, 1, 0],
        vec![0xb6, 0],
    ] {
        assert_eq!(decode(&short, 0), Err(VmError::BadCode), "{:?}", short);
    }
    for op in [0xa8u8, 0xa9, 0xba, 0xc9, 0xca, 0xcb, 0xfe, 0xff] {
        assert_eq!(decode(&[op, 0, 0, 0, 0], 0), Err(VmError::UnsupportedOpcode(op)));
    }
    assert_eq!(decode(&[0xc4, 0xa9, 0, 1], 0), Err(VmError::UnsupportedOpcode(0xa9)));
    assert_eq!(decode(&[0xc4, 0x60, 0, 1], 0), Err(VmError::UnsupportedOpcode(0x60)));
}

#[test]
fn native_catalog() {
    assert_eq!(lookup_native("java/lang/Object", "registerNatives"), Some(Native::Nothing));
    assert_eq!(lookup_native("java/lang/Object", "getClass"), Some(Native::GetClass));
    assert_eq!(lookup_native("java/lang/Object", "hashCode"), Some(Native::Pass(1)));
    assert_eq!(lookup_native("java/lang/Class", "initClassName"), Some(Native::InitClassName));
    assert_eq!(
        lookup_native("java/lang/Class", "desiredAssertionStatus0"),
        Some(Native::Constant(1))
    );
    assert_eq!(
        lookup_native("java/lang/Class", "getPrimitiveClass"),
        Some(Native::GetPrimitiveClass)
    );
    assert_eq!(lookup_native("java/lang/System", "arraycopy"), Some(Native::ArrayCopy));
    assert_eq!(lookup_native("java/lang/System", "identityHashCode"), Some(Native::Pass(1)));
    assert_eq!(lookup_native("java/lang/System", "initProperties"), Some(Native::Pass(1)));
    assert_eq!(lookup_native("java/lang/System", "nanoTime"), Some(Native::NanoTime));
    assert_eq!(lookup_native("java/lang/StringUTF16", "isBigEndian"), Some(Native::Constant(1)));
    assert_eq!(lookup_native("java/lang/Float", "floatToRawIntBits"), Some(Native::Pass(1)));
    assert_eq!(lookup_native("java/lang/Double", "doubleToRawLongBits"), Some(Native::Pass(2)));
    assert_eq!(lookup_native("java/lang/Double", "longBitsToDouble"), Some(Native::Pass(2)));
    assert_eq!(lookup_native("java/lang/Throwable", "fillInStackTrace"), Some(Native::Pass(1)));
    for zero in ["arrayBaseOffset0", "arrayIndexScale0", "addressSize0"] {
        assert_eq!(lookup_native("jdk/internal/misc/Unsafe", zero), Some(Native::Constant(0)));
    }
    for one in ["isBigEndian0", "unalignedAccess0"] {
        assert_eq!(lookup_native("jdk/internal/misc/Unsafe", one), Some(Native::Constant(1)));
    }
    assert_eq!(
        lookup_native("jdk/internal/misc/Unsafe", "objectFieldOffset1"),
        Some(Native::ObjectFieldOffset)
    );
    assert_eq!(lookup_native("jdk/internal/misc/Unsafe", "storeFence"), Some(Native::Nothing));
    assert_eq!(lookup_native("java/lang/Runtime", "availableProcessors"), Some(Native::Constant(1)));
    assert_eq!(lookup_native("java/lang/Thread", "registerNatives"), Some(Native::Nothing));
    assert_eq!(lookup_native("jdk/internal/misc/VM", "initialize"), Some(Native::Nothing));
    assert_eq!(lookup_native("jdk/internal/misc/VM", "initializeFromArchive"), Some(Native::Nothing));
    assert_eq!(lookup_native("java/lang/Object", "nanoTime"), None);
    assert_eq!(lookup_native("java/lang/System", "exit"), None);
    assert_eq!(wrapper_of("int"), Some("java/lang/Integer"));
    assert_eq!(wrapper_of("float"), Some("java/lang/Float"));
    assert_eq!(wrapper_of("double"), Some("java/lang/Double"));
    assert_eq!(wrapper_of("boolean"), Some("java/lang/Boolean"));
    assert_eq!(wrapper_of("char"), Some("java/lang/Character"));
    assert_eq!(wrapper_of("Integer"), None);
}

/// The bytes of a class without members.
fn bare(name: &str, parent: Option<&str>) -> Vec<u8> {
    let mut out: Vec<u8> = vec![0xca, 0xfe, 0xba, 0xbe, 0, 0, 0, 52];
    let count: u16 = if parent.is_some() { 5 } else { 3 };
    out.extend_from_slice(&count.to_be_bytes());
    out.push(1);
    out.extend_from_slice(&(name.len() as u16).to_be_bytes());
    out.extend_from_slice(name.as_bytes());
    out.extend_from_slice(&[7, 0, 1]);
    if let Some(p) = parent {
        out.push(1);
        out.extend_from_slice(&(p.len() as u16).to_be_bytes());
        out.extend_from_slice(p.as_bytes());
        out.extend_from_slice(&[7, 0, 3]);
    }
    out.extend_from_slice(&[0, 0x21, 0, 2]);
    out.extend_from_slice(&[0, if parent.is_some() { 4 } else { 0 }]);
    out.extend_from_slice(&[0, 0, 0, 0, 0, 0, 0, 0]);
    out
}

#[test]
fn linking_reaches_the_superclasses_root_first() {
    let mut memory = GlobalMemory::new();
    for (name, parent) in [
        ("A", None),
        ("java/lang/Class", Some("A")),
        ("B", Some("A")),
        ("C", Some("B")),
    ] {
        memory.load_class(&bare(name, parent)).unwrap();
        assert!(matches!(memory.advance_loading(), Ok(Loading::Added)));
    }
    let c = memory.method_area.find("C").unwrap();
    assert_eq!(memory.heap.data.len(), 1);
    assert_eq!(memory.link_class(c), Ok(()));
    assert_eq!(memory.heap.data.len(), 4);
    for (name, mirror) in [("A", 1), ("B", 2), ("C", 3)] {
        let i = memory.method_area.find(name).unwrap();
        match &memory.method_area.classes[i] {
            Klass::Instance(k) => {
                assert!(k.is_linked());
                assert!(!k.initialized);
                assert_eq!(k.java_clone, Some(mirror));
                assert_eq!(
                    k.constant_pool.as_ref().map(|pool| pool.len()),
                    Some(k.parsed_class.raw_pool.len())
                );
            }
            _ => panic!("a class"),
        }
        assert_eq!(memory.heap.data[mirror as usize].field_descriptor, "Ljava/lang/Class;");
    }
    // The class of the mirrors was not asked for, and is as it was.
    let mirrors = memory.method_area.find("java/lang/Class").unwrap();
    assert!(memory.method_area.classes[mirrors].get_java_clone().is_none());
    // A second call finds nothing to do.
    assert_eq!(memory.link_class(c), Ok(()));
    assert_eq!(memory.heap.data.len(), 4);
    // Without the class of the mirrors nothing is linked.
    let mut bare_memory = GlobalMemory::new();
    bare_memory.load_class(&bare("A", None)).unwrap();
    assert!(matches!(bare_memory.advance_loading(), Ok(Loading::Added)));
    assert_eq!(bare_memory.link_class(0), Err(VmError::ClassNotFound));
    assert_eq!(bare_memory.heap.data.len(), 1);
}

#[test]
fn class_is_loaded_after_its_superclass() {
    let mut memory = GlobalMemory::new();
    assert!(matches!(memory.advance_loading(), Ok(Loading::Idle)));
    assert!(matches!(memory.ensure_class("Sub"), Ok(Ensured::Load(name)) if name == "Sub"));
    memory.load_class(&bare("Sub", Some("Base"))).unwrap();
    assert_eq!(memory.loading.len(), 1);
    assert!(matches!(memory.ensure_class("Sub"), Ok(Ensured::Load(name)) if name == "Base"));
    assert_eq!(memory.load_class(&bare("Sub", Some("Base"))), Err(VmError::Unexpected));
    memory.load_class(&bare("Base", None)).unwrap();
    assert!(matches!(memory.advance_loading(), Ok(Loading::Added)));
    assert_eq!(memory.method_area.find("Base"), Some(0));
    assert!(matches!(memory.advance_loading(), Ok(Loading::Added)));
    assert_eq!(memory.method_area.find("Sub"), Some(1));
    assert!(memory.loading.is_empty());
    assert_eq!(memory.load_class(&bare("Base", None)), Ok(()));
    assert!(memory.loading.is_empty());
    // Linking needs the class of the mirrors.
    assert_eq!(memory.ensure_class("Sub").err(), Some(VmError::ClassNotFound));
    assert_eq!(memory.ensure_array("[I".to_string()), Err(VmError::ClassNotFound));
    memory.load_class(&bare("java/lang/Class", Some("Base"))).unwrap();
    assert!(matches!(memory.ensure_class("Sub"), Ok(Ensured::Again)));
    assert_eq!(memory.method_area.find("java/lang/Class"), Some(2));
    // Linking the superclass alone leaves the class as it is.
    let mut partly = GlobalMemory::new();
    for (name, parent) in [("Base", None), ("Sub", Some("Base")), ("java/lang/Class", Some("Base"))] {
        partly.load_class(&bare(name, parent)).unwrap();
        assert!(matches!(partly.advance_loading(), Ok(Loading::Added)));
    }
    assert_eq!(partly.method_area.find("Sub"), Some(1));
    assert_eq!(partly.link_class(0), Ok(()));
    match (&partly.method_area.classes[0], &partly.method_area.classes[1]) {
        (Klass::Instance(base), Klass::Instance(sub)) => {
            assert!(base.is_linked());
            assert!(!sub.is_linked());
            assert_eq!(base.java_clone, Some(1));
        }
        _ => panic!("both are classes"),
    }
    assert_eq!(partly.link_class(0), Ok(()));
    assert_eq!(partly.heap.data.len(), 2);
    assert_eq!(partly.link_class(7), Err(VmError::ClassNotFound));
    // One call links the superclass and the class, and initializes the class.
    assert!(matches!(memory.ensure_class("Sub"), Ok(Ensured::Ready)));
    match (&memory.method_area.classes[0], &memory.method_area.classes[1]) {
        (Klass::Instance(base), Klass::Instance(sub)) => {
            assert!(base.is_linked());
            assert!(sub.is_linked());
            assert_eq!(base.java_clone, Some(1));
            assert_eq!(sub.java_clone, Some(2));
            assert_eq!(sub.constant_pool.as_ref().map(|p| p.len()), Some(sub.parsed_class.raw_pool.len()));
            assert!(sub.static_field_values.is_empty());
        }
        _ => panic!("both are classes"),
    }
    assert_eq!(memory.heap.data.len(), 3);
    assert_eq!(memory.heap.data[1].field_descriptor, "Ljava/lang/Class;");
    assert!(matches!(memory.ensure_class("Sub"), Ok(Ensured::Ready)));
    assert_eq!(memory.heap.data.len(), 3);
    assert!(memory.method_area.classes[1].is_initialized());
    assert!(!memory.method_area.classes[0].is_initialized());
    assert_eq!(memory.method_area.classes[1].get_name(), "Sub");
    assert_eq!(memory.method_area.classes[1].get_java_clone(), Some(2));
    assert!(memory.method_area.classes[1].as_instance_klass().is_some());
    assert_eq!(memory.heap.data[2].field_descriptor, "Ljava/lang/Class;");
    assert_eq!(memory.ensure_array("[I".to_string()), Ok(()));
    let array = memory.method_area.find("[I").unwrap();
    assert!(memory.method_area.classes[array].is_initialized());
    assert!(memory.method_area.classes[array].as_instance_klass().is_none());
    assert_eq!(memory.ensure_array("[I".to_string()), Ok(()));
    assert_eq!(memory.method_area.classes.len(), 4);
    assert_eq!(memory.allocate_klass(array), Err(VmError::ClassNotFound));
    assert_eq!(memory.allocate_klass(1), Ok(4));
    assert_eq!(memory.heap.data[4].field_descriptor, "LSub;");
    assert!(memory.method_area.inherits_from(1, &"Base".to_string()));
    assert!(!memory.method_area.inherits_from(0, &"Sub".to_string()));
}

#[test]
fn class_cannot_be_added_twice_or_before_its_superclass() {
    let mut area = MethodArea::new();
    let base = parse(deserialize_class_file(&bare("Base", None)).unwrap()).unwrap();
    let sub = parse(deserialize_class_file(&bare("Sub", Some("Base"))).unwrap()).unwrap();
    let again = parse(deserialize_class_file(&bare("Base", None)).unwrap()).unwrap();
    assert_eq!(area.add_class("Sub".to_string(), sub), Err(VmError::ClassNotFound));
    assert_eq!(area.add_class("Base".to_string(), base), Ok(()));
    assert_eq!(area.add_class("Base".to_string(), again), Err(VmError::Unexpected));
    assert_eq!(area.classes.len(), 1);
    assert_eq!(area.find("Base"), Some(0));
    assert_eq!(area.find("Sub"), None);
}

#[test]
fn field_reference_gives_the_offset() {
    let mut memory = GlobalMemory::new();
    memory.load_class(&sample_with_parent()).unwrap();
    assert!(matches!(memory.advance_loading(), Ok(Loading::Added)));
    let file = deserialize_class_file(&sample()).unwrap();
    let field = resolve_entry(&file.constant_pool, 10).unwrap();
    let method = resolve_entry(&file.constant_pool, 14).unwrap();
    match &memory.method_area.classes[0] {
        Klass::Instance(k) => {
            assert_eq!(k.static_field_offset(&field), Ok(0));
            assert_eq!(k.field_offset(&field), Err(VmError::NoSuchField));
            assert_eq!(k.static_field_offset(&method), Err(VmError::Resolution));
            assert_eq!(k.field_offset(&method), Err(VmError::Resolution));
        }
        Klass::Array(_) => panic!("it is a class"),
    }
}

/// The sample class without superclass and interface, so that it can be
/// added to an empty method area.
fn sample_with_parent() -> Vec<u8> {
    let mut file = sample();
    // super_class and interfaces_count stand after the pool and the two bytes each of
    // access flags and this_class.
    let pool_end = find(&file, &[0x00, 0x31, 0, 2, 0, 4, 0, 1, 0, 6]);
    file[pool_end + 4] = 0;
    file[pool_end + 5] = 0;
    file[pool_end + 7] = 0;
    file.drain(pool_end + 8..pool_end + 10);
    file
}

fn find(bytes: &[u8], pattern: &[u8]) -> usize {
    (0..bytes.len() - pattern.len()).find(|i| &bytes[*i..*i + pattern.len()] == pattern).unwrap()
}
