use classfile::annotations::ElementValue;
use classfile::archive::{is_class_file, read_archive_entry};
use classfile::attributes::{read_inner_class, Attribute};
use classfile::class::Class;
use classfile::constant_pool::{ConstUtf8, Constant};
use classfile::error::{ClassLoadingError, ErrorKind, FlagScope};
use classfile::flags::{ClassAccessFlags, FieldAccessFlags, InnerClassAccessFlags, MethodAccessFlags};
use classfile::mutf8::decode_modified_utf8;
use classfile::stack_map::{StackMapTableAttribute, VerificationType};

fn u16be(v: u16) -> Vec<u8> {
    v.to_be_bytes().to_vec()
}

fn u32be(v: u32) -> Vec<u8> {
    v.to_be_bytes().to_vec()
}

fn utf8(s: &str) -> Vec<u8> {
    let mut b = vec![1u8];
    b.extend(u16be(s.len() as u16));
    b.extend(s.as_bytes());
    b
}

/// A class file with the given pool entries (already encoded), pool count,
/// and the bytes that follow `super_class`.
fn class_bytes(count: u16, pool: &[Vec<u8>], flags: u16, tail: &[u8]) -> Vec<u8> {
    let mut b = vec![0xCA, 0xFE, 0xBA, 0xBE, 0x00, 0x00, 0x00, 0x34];
    b.extend(u16be(count));
    for e in pool {
        b.extend(e);
    }
    b.extend(u16be(flags));
    b.extend(u16be(1));
    b.extend(u16be(1));
    b.extend(tail);
    b
}

fn attribute(name_index: u16, body: &[u8]) -> Vec<u8> {
    let mut b = u16be(name_index);
    b.extend(u32be(body.len() as u32));
    b.extend(body);
    b
}

/// A class whose only class attribute is given by name (pool #2) and body.
fn class_with_attribute(name: &str, body: &[u8]) -> Vec<u8> {
    let mut tail = vec![0, 0, 0, 0, 0, 0, 0, 1];
    tail.extend(attribute(2, body));
    class_bytes(3, &[utf8("A"), utf8(name)], 0x0021, &tail)
}

fn err_kind<T>(r: Result<T, ClassLoadingError>) -> ErrorKind {
    match r {
        Ok(_) => panic!("expected an error"),
        Err(e) => e.kind,
    }
}

fn utf8_text(c: &Constant) -> String {
    match c {
        Constant::Utf8(u) => u.string.clone(),
        other => panic!("not a Utf8 constant: {:?}", other),
    }
}

#[test]
fn test_conversion() {
    let bytes = vec![0x0f, 0x0f];
    let len = ConstUtf8::str_length(&bytes);

    assert_eq!(len, Ok(2))
}

#[test]
fn str_length_counts_by_lead_bytes() {
    assert_eq!(ConstUtf8::str_length(&vec![0x41, 0xC3, 0xA9, 0xE2, 0x82, 0xAC]), Ok(3));
    assert_eq!(ConstUtf8::str_length(&vec![]), Ok(0));
    assert_eq!(
        ConstUtf8::str_length(&vec![0x41, 0xE2, 0x82]),
        Err(ClassLoadingError::new(ErrorKind::MalformedUtf8))
    );
}

#[test]
fn minimal_class() {
    let bytes = vec![
        0xCA, 0xFE, 0xBA, 0xBE, 0x00, 0x00, 0x00, 0x34, 0x00, 0x02, 0x01, 0x00, 0x01, b'A', 0x00, 0x21, 0x00, 0x01,
        0x00, 0x01, 0x00, 0x00, 0x00, 0x00, 0x00, 0x00, 0x00, 0x00,
    ];
    let c = Class::read(&bytes).unwrap();
    assert_eq!(c.minor_version, 0);
    assert_eq!(c.major_version, 52);
    assert_eq!(utf8_text(c.constant_pool.index(1).unwrap()), "A");
    assert_eq!(c.constant_pool.logical_len(), 1);
    assert_eq!(c.access_flags.bits(), 0x0021);
    assert!(c.access_flags.contains(0x0020));
    assert_eq!(c.this_class, 1);
    assert_eq!(c.super_class, 1);
    assert!(c.interfaces.is_empty());
    assert!(c.fields.is_empty());
    assert!(c.methods.is_empty());
    assert!(c.attributes.is_empty());
}

#[test]
fn wrong_magic() {
    let mut bytes = class_bytes(2, &[utf8("A")], 0x0021, &[0, 0, 0, 0, 0, 0, 0, 0]);
    bytes[0..4].copy_from_slice(&[0xDE, 0xAD, 0xBE, 0xEF]);
    assert_eq!(err_kind(Class::read(&bytes)), ErrorKind::BadMagic);
}

#[test]
fn long_occupies_two_slots() {
    let mut long = vec![5u8];
    long.extend([1, 2, 3, 4, 5, 6, 7, 8]);
    let bytes = class_bytes(3, &[long], 0x0021, &[0, 0, 0, 0, 0, 0, 0, 0]);
    let c = Class::read(&bytes).unwrap();
    assert_eq!(c.constant_pool.logical_len(), 2);
    match c.constant_pool.index(1).unwrap() {
        Constant::Long(l) => assert_eq!(l.value, 0x0102030405060708),
        other => panic!("expected a Long, got {:?}", other),
    }
    assert_eq!(err_kind(c.constant_pool.index(2)), ErrorKind::InvalidPoolIndex(2));
}

#[test]
fn code_with_line_number_table() {
    let mut lnt = u16be(2);
    lnt.extend([0, 0, 0, 10, 0, 4, 0, 11]);
    let mut code = vec![0, 1, 0, 1, 0, 0, 0, 1, 0xB1, 0, 0, 0, 1];
    code.extend(attribute(3, &lnt));
    let code_attr = attribute(2, &code);
    assert_eq!(code.len(), 29);
    let mut tail = vec![0, 0, 0, 0, 0, 1, 0, 1, 0, 4, 0, 5, 0, 1];
    tail.extend(code_attr);
    tail.extend([0, 0]);
    let pool = [utf8("A"), utf8("Code"), utf8("LineNumberTable"), utf8("m"), utf8("()V")];
    let c = Class::read(&class_bytes(6, &pool, 0x0021, &tail)).unwrap();
    assert_eq!(c.methods.len(), 1);
    let m = &c.methods[0];
    assert_eq!(m.name_index, 4);
    assert_eq!(m.descriptor_index, 5);
    assert_eq!(m.access_flags.bits(), 1);
    match &m.attributes[0] {
        Attribute::Code(code) => {
            assert_eq!(code.max_stack, 1);
            assert_eq!(code.max_locals, 1);
            assert_eq!(code.code, vec![0xB1]);
            assert!(code.exception_tables.is_empty());
            assert_eq!(code.attributes.len(), 1);
            match &code.attributes[0] {
                Attribute::LineNumberTable(v) => {
                    assert_eq!(v.len(), 2);
                    assert_eq!((v[0].start_pc, v[0].line_number), (0, 10));
                    assert_eq!((v[1].start_pc, v[1].line_number), (4, 11));
                },
                other => panic!("expected a LineNumberTable, got {:?}", other),
            }
        },
        other => panic!("expected Code, got {:?}", other),
    }
}

#[test]
fn stack_map_table_all_frame_shapes() {
    let mut body = u16be(7);
    body.extend([5]);
    body.extend([70, 1]);
    body.extend([249, 0, 3]);
    body.extend([251, 0, 4]);
    body.extend([253, 0, 5, 1, 1]);
    body.extend([255, 0, 6, 0, 1, 7, 0, 1, 0, 1, 5]);
    body.extend([247, 0, 7, 1]);
    let c = Class::read(&class_with_attribute("StackMapTable", &body)).unwrap();
    let frames = match &c.attributes[0] {
        Attribute::StackMapTable(f) => f,
        other => panic!("expected a StackMapTable, got {:?}", other),
    };
    assert_eq!(frames.len(), 7);
    match &frames[0] {
        StackMapTableAttribute::Same(f) => assert_eq!(f.offset_delta, 5),
        other => panic!("{:?}", other),
    }
    match &frames[1] {
        StackMapTableAttribute::SameLocalsOneStackItem(f) => {
            assert_eq!(f.offset_delta, 6);
            assert_eq!(f.stack, VerificationType::Integer);
        },
        other => panic!("{:?}", other),
    }
    match &frames[2] {
        StackMapTableAttribute::Chop(f) => {
            assert_eq!(f.offset_delta, 3);
            assert_eq!(f.chopped, 2);
        },
        other => panic!("{:?}", other),
    }
    match &frames[3] {
        StackMapTableAttribute::SameExtended(f) => assert_eq!(f.offset_delta, 4),
        other => panic!("{:?}", other),
    }
    match &frames[4] {
        StackMapTableAttribute::Append(f) => {
            assert_eq!(f.offset_delta, 5);
            assert_eq!(f.locals, vec![VerificationType::Integer, VerificationType::Integer]);
        },
        other => panic!("{:?}", other),
    }
    match &frames[5] {
        StackMapTableAttribute::Full(f) => {
            assert_eq!(f.offset_delta, 6);
            assert_eq!(f.locals.len(), 1);
            match f.locals[0] {
                VerificationType::Object(o) => assert_eq!(o.constant_index, 1),
                other => panic!("{:?}", other),
            }
            assert_eq!(f.stack, vec![VerificationType::Null]);
        },
        other => panic!("{:?}", other),
    }
    match &frames[6] {
        StackMapTableAttribute::SameLocalsOneStackItemExtended(f) => {
            assert_eq!(f.offset_delta, 7);
            assert_eq!(f.stack, VerificationType::Integer);
        },
        other => panic!("{:?}", other),
    }
}

#[test]
fn unknown_attribute_kept_raw() {
    let c = Class::read(&class_with_attribute("MyCustom", &[0xde, 0xad, 0xbe, 0xef])).unwrap();
    match &c.attributes[0] {
        Attribute::Misc(m) => {
            assert_eq!(m.name_index, 2);
            assert_eq!(m.info, vec![0xde, 0xad, 0xbe, 0xef]);
        },
        other => panic!("expected Misc, got {:?}", other),
    }
}

#[test]
fn trailing_bytes_after_class() {
    let mut bytes = class_bytes(2, &[utf8("A")], 0x0021, &[0, 0, 0, 0, 0, 0, 0, 0]);
    bytes.push(0);
    assert_eq!(err_kind(Class::read(&bytes)), ErrorKind::TrailingBytes(1));
}

#[test]
fn truncated_input() {
    let bytes = class_bytes(2, &[utf8("A")], 0x0021, &[0, 0, 0, 0, 0, 0, 0]);
    assert_eq!(err_kind(Class::read(&bytes)), ErrorKind::UnexpectedEof);
    assert_eq!(err_kind(Class::read(&[0xCA, 0xFE])), ErrorKind::UnexpectedEof);
}

#[test]
fn pool_index_edges() {
    let mut long = vec![5u8];
    long.extend([0, 0, 0, 0, 0, 0, 0, 9]);
    let mut double = vec![6u8];
    double.extend([0x3F, 0xF0, 0, 0, 0, 0, 0, 0]);
    let pool = [utf8("A"), long, double, utf8("B")];
    let c = Class::read(&class_bytes(7, &pool, 0x0021, &[0, 0, 0, 0, 0, 0, 0, 0])).unwrap();
    let p = &c.constant_pool;
    assert_eq!(p.logical_len(), 6);
    assert_eq!(err_kind(p.index(0)), ErrorKind::InvalidPoolIndex(0));
    assert_eq!(utf8_text(p.index(1).unwrap()), "A");
    assert!(matches!(p.index(2).unwrap(), Constant::Long(_)));
    assert_eq!(err_kind(p.index(3)), ErrorKind::InvalidPoolIndex(3));
    match p.index(4).unwrap() {
        Constant::Double(d) => assert_eq!(d.bits, 0x3FF0_0000_0000_0000),
        other => panic!("{:?}", other),
    }
    assert_eq!(err_kind(p.index(5)), ErrorKind::InvalidPoolIndex(5));
    assert_eq!(utf8_text(p.index(6).unwrap()), "B");
    assert_eq!(err_kind(p.index(7)), ErrorKind::InvalidPoolIndex(7));
}

#[test]
fn constant_values_decoded() {
    let pool = [
        vec![3, 0xFF, 0xFF, 0xFF, 0xFE],
        vec![4, 0x3F, 0x80, 0x00, 0x00],
        vec![7, 0, 1],
        vec![8, 0, 1],
        vec![9, 0, 3, 0, 8],
        vec![10, 0, 3, 0, 8],
        vec![11, 0, 3, 0, 8],
        vec![12, 0, 1, 0, 1],
        vec![15, 6, 0, 6],
        vec![16, 0, 1],
        vec![18, 0, 0, 0, 8],
        vec![19, 0, 1],
        vec![20, 0, 1],
        vec![5, 0xFF, 0xFF, 0xFF, 0xFF, 0xFF, 0xFF, 0xFF, 0xFD],
    ];
    let c = Class::read(&class_bytes(16, &pool, 0x0021, &[0, 0, 0, 0, 0, 0, 0, 0])).unwrap();
    let p = &c.constant_pool;
    match p.index(1).unwrap() {
        Constant::Integer(i) => assert_eq!(i.value, -2),
        other => panic!("{:?}", other),
    }
    match p.index(2).unwrap() {
        Constant::Float(f) => assert_eq!(f32::from_bits(f.bits), 1.0f32),
        other => panic!("{:?}", other),
    }
    match p.index(5).unwrap() {
        Constant::Field(r) => assert_eq!((r.class_index, r.name_and_type_index), (3, 8)),
        other => panic!("{:?}", other),
    }
    match p.index(9).unwrap() {
        Constant::MethodHandle(h) => assert_eq!((h.reference_kind, h.reference_index), (6, 6)),
        other => panic!("{:?}", other),
    }
    match p.index(11).unwrap() {
        Constant::InvokeDynamic(d) => assert_eq!((d.bootstrap_method_attr_index, d.name_and_type_index), (0, 8)),
        other => panic!("{:?}", other),
    }
    assert!(matches!(p.index(12).unwrap(), Constant::Module(_)));
    assert!(matches!(p.index(13).unwrap(), Constant::Package(_)));
    match p.index(14).unwrap() {
        Constant::Long(l) => assert_eq!(l.value, -3),
        other => panic!("{:?}", other),
    }
}

#[test]
fn unknown_constant_tag() {
    let bytes = class_bytes(2, &[vec![2, 0, 0]], 0x0021, &[0, 0, 0, 0, 0, 0, 0, 0]);
    assert_eq!(err_kind(Class::read(&bytes)), ErrorKind::UnknownConstantTag(2));
}

#[test]
fn modified_utf8_strings() {
    assert_eq!(decode_modified_utf8(&[0x41, 0xC0, 0x80, 0x42]).unwrap(), "A\u{0}B");
    assert_eq!(decode_modified_utf8(&[0xED, 0xA0, 0xBD, 0xED, 0xB8, 0x80]).unwrap(), "\u{1F600}");
    assert_eq!(decode_modified_utf8("h\u{e9}llo \u{1F600}".as_bytes()).unwrap(), "h\u{e9}llo \u{1F600}");
    assert_eq!(
        decode_modified_utf8(&[0x41, 0xFF]),
        Err(ClassLoadingError::new(ErrorKind::MalformedUtf8))
    );
    let bytes = class_bytes(2, &[vec![1, 0, 2, 0xC0, 0x80]], 0x0021, &[0, 0, 0, 0, 0, 0, 0, 0]);
    let c = Class::read(&bytes).unwrap();
    assert_eq!(utf8_text(c.constant_pool.index(1).unwrap()), "\u{0}");
    let bad = class_bytes(2, &[vec![1, 0, 1, 0xFF]], 0x0021, &[0, 0, 0, 0, 0, 0, 0, 0]);
    assert_eq!(err_kind(Class::read(&bad)), ErrorKind::MalformedUtf8);
}

#[test]
fn attribute_length_must_match_body() {
    let body = [0, 7, 0];
    assert_eq!(
        err_kind(Class::read(&class_with_attribute("ConstantValue", &body))),
        ErrorKind::TrailingAttributeBytes(2, 1)
    );
    assert_eq!(err_kind(Class::read(&class_with_attribute("ConstantValue", &[0]))), ErrorKind::UnexpectedEof);
    let c = Class::read(&class_with_attribute("ConstantValue", &[0, 7])).unwrap();
    match &c.attributes[0] {
        Attribute::ConstantValue(v) => assert_eq!(v.const_value_index, 7),
        other => panic!("{:?}", other),
    }
    let mut tail = vec![0, 0, 0, 0, 0, 0, 0, 1];
    tail.extend(u16be(2));
    tail.extend(u32be(10));
    tail.extend([0, 7]);
    assert_eq!(
        err_kind(Class::read(&class_bytes(3, &[utf8("A"), utf8("ConstantValue")], 0x0021, &tail))),
        ErrorKind::UnexpectedEof
    );
}

#[test]
fn attribute_name_must_be_utf8() {
    let mut tail = vec![0, 0, 0, 0, 0, 0, 0, 1];
    tail.extend(attribute(2, &[]));
    let bytes = class_bytes(3, &[utf8("A"), vec![7, 0, 1]], 0x0021, &tail);
    assert_eq!(err_kind(Class::read(&bytes)), ErrorKind::UnknownAttributeStructure(2));
    let mut tail = vec![0, 0, 0, 0, 0, 0, 0, 1];
    tail.extend(attribute(9, &[]));
    let bytes = class_bytes(2, &[utf8("A")], 0x0021, &tail);
    assert_eq!(err_kind(Class::read(&bytes)), ErrorKind::InvalidPoolIndex(9));
}

#[test]
fn reserved_and_unknown_tags() {
    let reserved = [0, 1, 128];
    assert_eq!(err_kind(Class::read(&class_with_attribute("StackMapTable", &reserved))), ErrorKind::ReservedStackFrame(128));
    let reserved = [0, 1, 246];
    assert_eq!(err_kind(Class::read(&class_with_attribute("StackMapTable", &reserved))), ErrorKind::ReservedStackFrame(246));
    let bad_vti = [0, 1, 64, 9];
    assert_eq!(err_kind(Class::read(&class_with_attribute("StackMapTable", &bad_vti))), ErrorKind::UnknownVerificationType(9));
    assert_eq!(err_kind(Class::read(&class_with_attribute("AnnotationDefault", &[b'x', 0, 0]))), ErrorKind::UnknownElementValueTag(b'x'));
}

#[test]
fn annotations_decoded() {
    let mut body = u16be(1);
    body.extend([0, 5, 0, 3]);
    body.extend([0, 6, b'I', 0, 7]);
    body.extend([0, 8, b'e', 0, 9, 0, 10]);
    body.extend([0, 11, b'[', 0, 2, b'c', 0, 12, b'@', 0, 13, 0, 0]);
    let c = Class::read(&class_with_attribute("RuntimeVisibleAnnotations", &body)).unwrap();
    let anns = match &c.attributes[0] {
        Attribute::RuntimeVisibleAnnotations(a) => a,
        other => panic!("{:?}", other),
    };
    assert_eq!(anns.len(), 1);
    assert_eq!(anns[0].type_index, 5);
    let pairs = &anns[0].element_value_pairs;
    assert_eq!(pairs.len(), 3);
    match &pairs[0].value {
        ElementValue::Constant(k) => assert_eq!((k.tag, k.const_value_index), (b'I', 7)),
        other => panic!("{:?}", other),
    }
    match &pairs[1].value {
        ElementValue::Enum(e) => assert_eq!((e.type_name_index, e.const_name_index), (9, 10)),
        other => panic!("{:?}", other),
    }
    match &pairs[2].value {
        ElementValue::Array(a) => {
            assert_eq!(a.array_values.len(), 2);
            assert!(matches!(&a.array_values[0], ElementValue::Class(x) if x.class_info_index == 12));
            assert!(matches!(&a.array_values[1], ElementValue::Annotation(x) if x.annotation.type_index == 13));
        },
        other => panic!("{:?}", other),
    }
    let params = [2, 0, 0, 0, 1, 0, 4, 0, 0];
    let c = Class::read(&class_with_attribute("RuntimeInvisibleParameterAnnotations", &params)).unwrap();
    match &c.attributes[0] {
        Attribute::RuntimeInvisibleParameterAnnotations(p) => {
            assert_eq!(p.len(), 2);
            assert!(p[0].annotations.is_empty());
            assert_eq!(p[1].annotations[0].type_index, 4);
        },
        other => panic!("{:?}", other),
    }
}

#[test]
fn other_known_attributes_decoded() {
    let c = Class::read(&class_with_attribute("BootstrapMethods", &[0, 1, 0, 3, 0, 2, 0, 4, 0, 5])).unwrap();
    match &c.attributes[0] {
        Attribute::BootstrapMethods(b) => {
            assert_eq!(b[0].bootstrap_method_ref, 3);
            assert_eq!(b[0].bootstrap_arguments, vec![4, 5]);
        },
        other => panic!("{:?}", other),
    }
    let c = Class::read(&class_with_attribute("InnerClasses", &[0, 1, 0, 1, 0, 2, 0, 3, 0x00, 0x09])).unwrap();
    match &c.attributes[0] {
        Attribute::InnerClasses(v) => {
            assert_eq!((v[0].inner_class_info_index, v[0].outer_class_info_index, v[0].inner_name_index), (1, 2, 3));
            assert_eq!(v[0].inner_class_access_flags.bits(), 9);
        },
        other => panic!("{:?}", other),
    }
    let lvt = [0, 1, 0, 0, 0, 5, 0, 6, 0, 7, 0, 1];
    let c = Class::read(&class_with_attribute("LocalVariableTable", &lvt)).unwrap();
    match &c.attributes[0] {
        Attribute::LocalVariableTable(v) => {
            assert_eq!((v[0].start_pc, v[0].length, v[0].name_index, v[0].descriptor_index, v[0].index), (0, 5, 6, 7, 1));
        },
        other => panic!("{:?}", other),
    }
    let c = Class::read(&class_with_attribute("SourceDebugExtension", b"dbg")).unwrap();
    match &c.attributes[0] {
        Attribute::SourceDebugExtension(d) => assert_eq!(d.debug_info, b"dbg".to_vec()),
        other => panic!("{:?}", other),
    }
    let c = Class::read(&class_with_attribute("Deprecated", &[])).unwrap();
    assert!(matches!(c.attributes[0], Attribute::Deprecated));
    let c = Class::read(&class_with_attribute("EnclosingMethod", &[0, 1, 0, 2])).unwrap();
    match &c.attributes[0] {
        Attribute::EnclosingMethod(e) => assert_eq!((e.class_index, e.method_index), (1, 2)),
        other => panic!("{:?}", other),
    }
    let c = Class::read(&class_with_attribute("Exceptions", &[0, 2, 0, 1, 0, 2])).unwrap();
    match &c.attributes[0] {
        Attribute::Exceptions(v) => assert_eq!((v[0].index, v[1].index), (1, 2)),
        other => panic!("{:?}", other),
    }
}

#[test]
fn access_flags_outside_mask_rejected() {
    assert_eq!(
        err_kind(Class::read(&class_bytes(2, &[utf8("A")], 0x0002, &[0, 0, 0, 0, 0, 0, 0, 0]))),
        ErrorKind::InvalidAccessFlags(FlagScope::Class, 0x0002)
    );
    let field = [0, 1, 0, 0x20, 0, 1, 0, 1, 0, 0];
    let mut tail = vec![0, 0];
    tail.extend(field);
    tail.extend([0, 0, 0, 0]);
    assert_eq!(
        err_kind(Class::read(&class_bytes(2, &[utf8("A")], 0x0021, &tail))),
        ErrorKind::InvalidAccessFlags(FlagScope::Field, 0x0020)
    );
    let method = [0, 1, 0x02, 0x00, 0, 1, 0, 1, 0, 0];
    let mut tail = vec![0, 0, 0, 0];
    tail.extend(method);
    tail.extend([0, 0]);
    assert_eq!(
        err_kind(Class::read(&class_bytes(2, &[utf8("A")], 0x0021, &tail))),
        ErrorKind::InvalidAccessFlags(FlagScope::Method, 0x0200)
    );
    assert_eq!(
        err_kind(Class::read(&class_with_attribute("InnerClasses", &[0, 1, 0, 1, 0, 2, 0, 3, 0x00, 0x20]))),
        ErrorKind::InvalidAccessFlags(FlagScope::InnerClass, 0x0020)
    );
    for bit in 0..16u16 {
        let b = 1u16 << bit;
        assert_eq!(ClassAccessFlags::from_bits(b).is_some(), b & 0x7631 != 0);
        assert_eq!(FieldAccessFlags::from_bits(b).is_some(), b & 0x50DF != 0);
        assert_eq!(MethodAccessFlags::from_bits(b).is_some(), b & 0x1DFF != 0);
        assert_eq!(InnerClassAccessFlags::from_bits(b).is_some(), b & 0x761F != 0);
    }
    assert!(FieldAccessFlags::from_bits(0x50DF).is_some());
}

#[test]
fn field_decoded() {
    let field = [0, 1, 0, 0x19, 0, 1, 0, 1, 0, 0];
    let mut tail = vec![0, 0];
    tail.extend(field);
    tail.extend([0, 0, 0, 0]);
    let c = Class::read(&class_bytes(2, &[utf8("A")], 0x0021, &tail)).unwrap();
    assert_eq!(c.fields.len(), 1);
    assert_eq!(c.fields[0].access_flags.bits(), 0x19);
    assert_eq!((c.fields[0].name_index, c.fields[0].descriptor_index), (1, 1));
    let mut tail = vec![0, 2, 0, 1, 0, 1];
    tail.extend([0, 0, 0, 0, 0, 0]);
    let c = Class::read(&class_bytes(2, &[utf8("A")], 0x0021, &tail)).unwrap();
    assert_eq!(c.interfaces.len(), 2);
    assert_eq!(c.interfaces[1].interface_index, 1);
}

#[test]
fn decoding_is_deterministic() {
    let mut body = u16be(2);
    body.extend([5, 70, 1]);
    let bytes = class_with_attribute("StackMapTable", &body);
    let a = format!("{:?}", Class::read(&bytes).unwrap());
    let b = format!("{:?}", Class::read(&bytes).unwrap());
    assert_eq!(a, b);
}

#[test]
fn archive_entries() {
    assert!(is_class_file("java/lang/Object.class"));
    assert!(is_class_file("A.class"));
    assert!(!is_class_file("java/lang/.class"));
    assert!(!is_class_file(".class"));
    assert!(!is_class_file("META-INF/MANIFEST.MF"));
    assert!(!is_class_file("a.classx"));
    let good = class_bytes(2, &[utf8("A")], 0x0021, &[0, 0, 0, 0, 0, 0, 0, 0]);
    assert!(read_archive_entry("META-INF/MANIFEST.MF", &good).is_none());
    assert!(matches!(read_archive_entry("p/A.class", &good), Some(Ok(_))));
    match read_archive_entry("p/B.class", &[0xDE, 0xAD, 0xBE, 0xEF]) {
        Some(Err(f)) => {
            assert_eq!(f.entry, "p/B.class");
            assert_eq!(f.error.kind, ErrorKind::BadMagic);
        },
        _ => panic!("expected a failed entry"),
    }
}

#[test]
fn strict_mode_checks_indices() {
    let good = class_bytes(2, &[utf8("A")], 0x0021, &[0, 0, 0, 0, 0, 0, 0, 0]);
    assert!(Class::read_strict(&good).is_ok());
    let c = Class::read(&good).unwrap();
    assert_eq!(c.stored_indices(), vec![1, 1]);
    assert!(c.check_indices().is_ok());

    let mut bad_this = good.clone();
    bad_this[16] = 0;
    bad_this[17] = 5;
    assert!(Class::read(&bad_this).is_ok());
    assert_eq!(err_kind(Class::read_strict(&bad_this)), ErrorKind::InvalidPoolIndex(5));

    let mut no_super = good.clone();
    no_super[18] = 0;
    no_super[19] = 0;
    assert!(Class::read_strict(&no_super).is_ok());

    let field = [0, 1, 0, 1, 0, 3, 0, 0];
    let mut tail = vec![0, 0, 0, 1];
    tail.extend(field);
    tail.extend([0, 0, 0, 0]);
    let bytes = class_bytes(2, &[utf8("A")], 0x0021, &tail);
    let c = Class::read(&bytes).unwrap();
    assert_eq!(c.stored_indices(), vec![1, 1, 1, 3]);
    assert_eq!(err_kind(Class::read_strict(&bytes)), ErrorKind::InvalidPoolIndex(3));
}

#[test]
fn pool_count_edges() {
    let empty = class_bytes(0, &[], 0x0021, &[0, 0, 0, 0, 0, 0, 0, 0]);
    assert_eq!(err_kind(Class::read(&empty)), ErrorKind::InvalidPoolIndex(0));
    let one = class_bytes(1, &[], 0x0021, &[0, 0, 0, 0, 0, 0, 0, 0]);
    let c = Class::read(&one).unwrap();
    assert_eq!(c.constant_pool.logical_len(), 0);
    assert_eq!(err_kind(c.constant_pool.index(1)), ErrorKind::InvalidPoolIndex(1));
    let mut long = vec![5u8];
    long.extend([0, 0, 0, 0, 0, 0, 0, 1]);
    let overrun = class_bytes(2, &[long.clone()], 0x0021, &[0, 0, 0, 0, 0, 0, 0, 0]);
    assert_eq!(err_kind(Class::read(&overrun)), ErrorKind::InvalidPoolIndex(2));
    let mut double = vec![6u8];
    double.extend([0, 0, 0, 0, 0, 0, 0, 1]);
    let overrun = class_bytes(3, &[utf8("A"), double], 0x0021, &[0, 0, 0, 0, 0, 0, 0, 0]);
    assert_eq!(err_kind(Class::read(&overrun)), ErrorKind::InvalidPoolIndex(3));
    let fits = class_bytes(3, &[long], 0x0021, &[0, 0, 0, 0, 0, 0, 0, 0]);
    assert_eq!(Class::read(&fits).unwrap().constant_pool.logical_len(), 2);
}

#[test]
fn strict_mode_checks_nested_indices() {
    // A String constant whose string index does not resolve.
    let bytes = class_bytes(3, &[utf8("A"), vec![8, 0, 9]], 0x0021, &[0, 0, 0, 0, 0, 0, 0, 0]);
    assert!(Class::read(&bytes).is_ok());
    assert_eq!(err_kind(Class::read_strict(&bytes)), ErrorKind::InvalidPoolIndex(9));
    // A SourceFile attribute naming index 7.
    let bytes = class_with_attribute("SourceFile", &[0, 7]);
    assert_eq!(err_kind(Class::read_strict(&bytes)), ErrorKind::InvalidPoolIndex(7));
    let bytes = class_with_attribute("SourceFile", &[0, 1]);
    assert!(Class::read_strict(&bytes).is_ok());
    // Inner class entries may leave the outer class and the name at 0.
    let bytes = class_with_attribute("InnerClasses", &[0, 1, 0, 1, 0, 0, 0, 0, 0x00, 0x09]);
    assert!(Class::read_strict(&bytes).is_ok());
    let bytes = class_with_attribute("InnerClasses", &[0, 1, 0, 0, 0, 0, 0, 0, 0x00, 0x09]);
    assert_eq!(err_kind(Class::read_strict(&bytes)), ErrorKind::InvalidPoolIndex(0));
    // A frame's Object type names a pool index.
    let bytes = class_with_attribute("StackMapTable", &[0, 1, 64, 7, 0, 5]);
    assert_eq!(err_kind(Class::read_strict(&bytes)), ErrorKind::InvalidPoolIndex(5));
    // A nested annotation inside an array element.
    let mut body = u16be(1);
    body.extend([0, 1, 0, 1]);
    body.extend([0, 1, b'[', 0, 1, b'@', 0, 6, 0, 0]);
    let bytes = class_with_attribute("RuntimeVisibleAnnotations", &body);
    assert!(Class::read(&bytes).is_ok());
    assert_eq!(err_kind(Class::read_strict(&bytes)), ErrorKind::InvalidPoolIndex(6));
}

#[test]
fn inner_class_entry_decoded() {
    let bytes = [0, 1, 0, 2, 0, 3, 0x40, 0x19];
    let (x, p) = read_inner_class(&bytes, 0, 8).unwrap();
    assert_eq!((x.inner_class_info_index, x.outer_class_info_index, x.inner_name_index), (1, 2, 3));
    assert_eq!(x.inner_class_access_flags.bits(), 0x4019);
    assert_eq!(p, 8);
    let bad = [0, 1, 0, 2, 0, 3, 0x00, 0x40];
    assert_eq!(err_kind(read_inner_class(&bad, 0, 8)), ErrorKind::InvalidAccessFlags(FlagScope::InnerClass, 0x40));
    assert_eq!(err_kind(read_inner_class(&bad, 0, 7)), ErrorKind::UnexpectedEof);
}
