use crayon::{
    utf8_char_width, DecodeError, Deserializer, Endianness, Invalid, LoadError, MeshLoader, Shape,
    SizeLimit, Value,
};

fn session(bytes: &[u8]) -> Deserializer {
    Deserializer::new(bytes.to_vec(), SizeLimit::Infinite, Endianness::Little)
}

fn decode(bytes: &[u8], shape: &Shape) -> Result<Value, DecodeError> {
    session(bytes).deserialize(shape)
}

fn as_list(v: Value) -> Vec<Value> {
    match v {
        Value::List(vs) => vs,
        other => panic!("expected a list, got {:?}", other),
    }
}

#[test]
fn length_below_escape_is_one_byte() {
    let mut d = session(&[254]);
    assert_eq!(d.read_variant_uint(), Ok(254));
    assert_eq!(d.position(), 1);
    assert_eq!(d.bytes_read(), 1);
}

#[test]
fn escaped_length_reads_four_more_bytes() {
    let mut d = Deserializer::new(vec![0xFF, 0, 0, 0, 0xFF], SizeLimit::Infinite, Endianness::Big);
    assert_eq!(d.read_variant_uint(), Ok(255));
    assert_eq!(d.position(), 5);
    assert_eq!(d.bytes_read(), 5);
    let mut d = session(&[0xFF, 0xFF, 0, 0, 0]);
    assert_eq!(d.read_variant_uint(), Ok(255));
    let mut d = session(&[0xFF, 0x00, 0x01, 0, 0]);
    assert_eq!(d.read_variant_uint(), Ok(256));
}

#[test]
fn escaped_length_needs_its_payload() {
    let mut d = session(&[0xFF, 1, 2]);
    assert_eq!(d.read_variant_uint(), Err(DecodeError::IoFailure));
}

#[test]
fn bool_is_strict() {
    assert_eq!(session(&[0]).deserialize_bool(), Ok(false));
    assert_eq!(session(&[1]).deserialize_bool(), Ok(true));
    assert_eq!(
        session(&[2]).deserialize_bool(),
        Err(DecodeError::InvalidEncoding(Invalid::Bool(2)))
    );
    assert_eq!(session(&[]).deserialize_bool(), Err(DecodeError::IoFailure));
}

#[test]
fn size_limit_trips_on_second_read() {
    let bytes = [1u8, 0, 0, 0, 0, 0, 0, 0, 2, 0, 0, 0, 0, 0, 0, 0];
    let mut d = Deserializer::new(bytes.to_vec(), SizeLimit::Bounded(10), Endianness::Little);
    assert!(matches!(d.deserialize(&Shape::U64), Ok(Value::U64(1))));
    assert_eq!(d.deserialize(&Shape::U64).unwrap_err(), DecodeError::SizeLimitExceeded);
    assert_eq!(d.bytes_read(), 16);
    assert_eq!(d.deserialize(&Shape::U8).unwrap_err(), DecodeError::SizeLimitExceeded);
}

#[test]
fn size_limit_counts_the_exact_bound() {
    let mut d = Deserializer::new(vec![7, 8], SizeLimit::Bounded(2), Endianness::Little);
    assert_eq!(d.read_bytes(2), Ok(()));
    assert_eq!(d.read_bytes(1), Err(DecodeError::SizeLimitExceeded));
    let mut d = Deserializer::new(vec![], SizeLimit::Bounded(u64::MAX), Endianness::Little);
    assert_eq!(d.read_bytes(u64::MAX), Ok(()));
    assert_eq!(d.read_bytes(1), Err(DecodeError::SizeLimitExceeded));
    assert_eq!(d.bytes_read(), u64::MAX);
}

#[test]
fn length_prefix_is_charged_before_the_payload() {
    let mut d = Deserializer::new(vec![200, b'a'], SizeLimit::Bounded(50), Endianness::Little);
    assert_eq!(d.read_str(), Err(DecodeError::SizeLimitExceeded));
}

#[test]
fn char_two_byte_scalar() {
    let mut d = session(&[0xC2, 0x80]);
    assert_eq!(d.deserialize_char(), Ok('\u{80}'));
    assert_eq!(d.position(), 2);
}

#[test]
fn char_bare_continuation_is_invalid() {
    assert_eq!(
        session(&[0x80]).deserialize_char(),
        Err(DecodeError::InvalidEncoding(Invalid::Char))
    );
}

#[test]
fn char_truncated_three_byte_sequence() {
    assert_eq!(session(&[0xE2, 0x82]).deserialize_char(), Err(DecodeError::IoFailure));
}

#[test]
fn char_other_widths_and_faults() {
    assert_eq!(session(&[b'A']).deserialize_char(), Ok('A'));
    assert_eq!(session(&[0xE2, 0x82, 0xAC]).deserialize_char(), Ok('€'));
    assert_eq!(session(&[0xF0, 0x9F, 0x98, 0x80]).deserialize_char(), Ok('😀'));
    // a surrogate
    assert_eq!(
        session(&[0xED, 0xA0, 0x80]).deserialize_char(),
        Err(DecodeError::InvalidEncoding(Invalid::Char))
    );
    // an overlong encoding of '/'
    assert_eq!(
        session(&[0xE0, 0x80, 0xAF]).deserialize_char(),
        Err(DecodeError::InvalidEncoding(Invalid::Char))
    );
    // a bad continuation byte
    assert_eq!(
        session(&[0xC3, 0x41]).deserialize_char(),
        Err(DecodeError::InvalidEncoding(Invalid::Char))
    );
    assert_eq!(session(&[]).deserialize_char(), Err(DecodeError::IoFailure));
}

#[test]
fn char_bytes_are_charged() {
    let mut d = Deserializer::new(vec![0xC2, 0x80], SizeLimit::Bounded(2), Endianness::Little);
    assert_eq!(d.deserialize_char(), Ok('\u{80}'));
    assert_eq!(d.bytes_read(), 2);
    let mut d = Deserializer::new(vec![0x41], SizeLimit::Bounded(0), Endianness::Little);
    assert_eq!(d.deserialize_char(), Err(DecodeError::SizeLimitExceeded));
    assert_eq!(d.position(), 0);
    let mut d = Deserializer::new(vec![0xC2, 0x80], SizeLimit::Bounded(1), Endianness::Little);
    assert_eq!(d.deserialize_char(), Err(DecodeError::SizeLimitExceeded));
    assert_eq!(d.position(), 1);
    let shape = Shape::List(Box::new(Shape::Char));
    let mut d = Deserializer::new(vec![1, 0x41], SizeLimit::Infinite, Endianness::Little);
    assert!(d.deserialize(&shape).is_ok());
    assert_eq!(d.bytes_read(), 2);
    let mut d = Deserializer::new(vec![3, 0x41, 0x42, 0x43], SizeLimit::Bounded(3), Endianness::Little);
    assert_eq!(d.deserialize(&shape).unwrap_err(), DecodeError::SizeLimitExceeded);
}

#[test]
fn failures_leave_the_session_where_they_stopped() {
    let mut d = session(&[2, 7]);
    assert!(d.deserialize_bool().is_err());
    assert_eq!((d.position(), d.bytes_read()), (1, 1));
    let mut d = session(&[2, 7]);
    assert!(d.deserialize(&Shape::Option(Box::new(Shape::U8))).is_err());
    assert_eq!((d.position(), d.bytes_read()), (1, 1));
    let mut d = Deserializer::new(vec![5, b'a', b'b'], SizeLimit::Bounded(3), Endianness::Little);
    assert_eq!(d.read_str(), Err(DecodeError::SizeLimitExceeded));
    assert_eq!((d.position(), d.bytes_read()), (1, 6));
    let mut d = session(&[0xE0, 0x80, 0x80, 9]);
    assert!(d.deserialize_char().is_err());
    assert_eq!(d.position(), 3);
    let mut d = session(&[1]);
    assert!(d.deserialize(&Shape::Any).is_err());
    assert_eq!((d.position(), d.bytes_read()), (0, 0));
}

#[test]
fn width_table() {
    assert_eq!(utf8_char_width(0x00), 1);
    assert_eq!(utf8_char_width(0x7F), 1);
    assert_eq!(utf8_char_width(0x80), 0);
    assert_eq!(utf8_char_width(0xBF), 0);
    assert_eq!(utf8_char_width(0xC1), 0);
    assert_eq!(utf8_char_width(0xC2), 2);
    assert_eq!(utf8_char_width(0xDF), 2);
    assert_eq!(utf8_char_width(0xE0), 3);
    assert_eq!(utf8_char_width(0xEF), 3);
    assert_eq!(utf8_char_width(0xF0), 4);
    assert_eq!(utf8_char_width(0xF4), 4);
    assert_eq!(utf8_char_width(0xF5), 0);
    assert_eq!(utf8_char_width(0xFF), 0);
}

#[test]
fn enum_unit_and_pair() {
    let shape = Shape::Enum(vec![
        Shape::Unit,
        Shape::Tuple(vec![Shape::U8, Shape::U8]),
    ]);
    match decode(&[0x00], &shape) {
        Ok(Value::Variant(0, v)) => assert!(matches!(*v, Value::Unit)),
        other => panic!("unexpected {:?}", other),
    }
    match decode(&[0x01, 0x05, 0x06], &shape) {
        Ok(Value::Variant(1, v)) => {
            let fields = as_list(*v);
            assert_eq!(fields.len(), 2);
            assert!(matches!(fields[0], Value::U8(5)));
            assert!(matches!(fields[1], Value::U8(6)));
        }
        other => panic!("unexpected {:?}", other),
    }
    assert_eq!(
        decode(&[0x02], &shape).unwrap_err(),
        DecodeError::InvalidEncoding(Invalid::VariantIndex(2))
    );
}

#[test]
fn sequence_of_u32_exact_length() {
    let shape = Shape::List(Box::new(Shape::U32));
    let bytes = [3u8, 1, 0, 0, 0, 2, 0, 0, 0, 3, 0, 0, 0];
    let mut d = session(&bytes);
    let vs = as_list(d.deserialize(&shape).unwrap());
    assert_eq!(vs.len(), 3);
    assert!(matches!(vs[0], Value::U32(1)));
    assert!(matches!(vs[1], Value::U32(2)));
    assert!(matches!(vs[2], Value::U32(3)));
    assert_eq!(d.position(), bytes.len());
    assert_eq!(decode(&bytes[..12], &shape).unwrap_err(), DecodeError::IoFailure);
}

#[test]
fn numbers_in_both_byte_orders() {
    let bytes = [0x12u8, 0x34, 0x56, 0x78];
    let big = Deserializer::new(bytes.to_vec(), SizeLimit::Infinite, Endianness::Big)
        .deserialize(&Shape::U32);
    assert!(matches!(big, Ok(Value::U32(0x1234_5678))));
    assert!(matches!(decode(&bytes, &Shape::U32), Ok(Value::U32(0x7856_3412))));
    assert!(matches!(decode(&bytes, &Shape::U16), Ok(Value::U16(0x3412))));
    assert!(matches!(decode(&[0xFF, 0xFF], &Shape::I16), Ok(Value::I16(-1))));
    assert!(matches!(decode(&[0x80], &Shape::I8), Ok(Value::I8(-128))));
    assert!(matches!(decode(&[0xFE, 0xFF, 0xFF, 0xFF], &Shape::I32), Ok(Value::I32(-2))));
    assert!(matches!(
        decode(&[0, 0, 0, 0, 0, 0, 0, 0x80], &Shape::I64),
        Ok(Value::I64(i64::MIN))
    ));
    assert!(matches!(
        decode(&[1, 2, 3, 4, 5, 6, 7, 8], &Shape::U64),
        Ok(Value::U64(0x0807_0605_0403_0201))
    ));
    match decode(&1.5f32.to_bits().to_le_bytes(), &Shape::F32) {
        Ok(Value::F32(bits)) => assert_eq!(f32::from_bits(bits), 1.5),
        other => panic!("unexpected {:?}", other),
    }
    match decode(&(-2.25f64).to_bits().to_le_bytes(), &Shape::F64) {
        Ok(Value::F64(bits)) => assert_eq!(f64::from_bits(bits), -2.25),
        other => panic!("unexpected {:?}", other),
    }
    assert_eq!(decode(&[1, 2, 3], &Shape::U32).unwrap_err(), DecodeError::IoFailure);
}

#[test]
fn strings() {
    let mut d = session(&[5, b'h', b'e', b'l', b'l', b'o', 9]);
    assert_eq!(d.read_str(), Ok("hello".to_string()));
    assert_eq!(d.position(), 6);
    assert_eq!(session(&[0]).read_str(), Ok(String::new()));
    assert_eq!(session(&[2, 0xC3, 0xA9]).read_str(), Ok("é".to_string()));
    assert_eq!(
        session(&[1, 0xFF]).read_str(),
        Err(DecodeError::InvalidEncoding(Invalid::Utf8))
    );
    assert_eq!(session(&[3, b'a']).read_str(), Err(DecodeError::IoFailure));
}

#[test]
fn byte_buffers() {
    let mut d = session(&[3, 7, 8, 9]);
    assert_eq!(d.deserialize_byte_buf(), Ok(vec![7, 8, 9]));
    assert_eq!(d.bytes_read(), 4);
    assert_eq!(session(&[2, 7]).deserialize_byte_buf(), Err(DecodeError::IoFailure));
    match decode(&[0], &Shape::Bytes) {
        Ok(Value::Bytes(b)) => assert!(b.is_empty()),
        other => panic!("unexpected {:?}", other),
    }
}

#[test]
fn options() {
    let shape = Shape::Option(Box::new(Shape::U8));
    assert!(matches!(decode(&[0], &shape), Ok(Value::Absent)));
    match decode(&[1, 42], &shape) {
        Ok(Value::Present(v)) => assert!(matches!(*v, Value::U8(42))),
        other => panic!("unexpected {:?}", other),
    }
    assert_eq!(
        decode(&[2, 42], &shape).unwrap_err(),
        DecodeError::InvalidEncoding(Invalid::OptionTag(2))
    );
}

#[test]
fn maps_keep_order_and_duplicates() {
    let shape = Shape::Dict(Box::new(Shape::U8), Box::new(Shape::Bool));
    match decode(&[2, 9, 1, 9, 0], &shape) {
        Ok(Value::Dict(es)) => {
            assert_eq!(es.len(), 2);
            assert!(matches!(es[0], (Value::U8(9), Value::Bool(true))));
            assert!(matches!(es[1], (Value::U8(9), Value::Bool(false))));
        }
        other => panic!("unexpected {:?}", other),
    }
    assert_eq!(
        decode(&[1, 9, 5], &shape).unwrap_err(),
        DecodeError::InvalidEncoding(Invalid::Bool(5))
    );
}

#[test]
fn structs_arrays_and_newtypes() {
    let shape = Shape::Tuple(vec![
        Shape::Unit,
        Shape::Newtype(Box::new(Shape::U16)),
        Shape::Array(2, Box::new(Shape::Char)),
        Shape::Str,
    ]);
    let mut d = session(&[0x34, 0x12, b'o', b'k', 2, b'h', b'i']);
    let fields = as_list(d.deserialize(&shape).unwrap());
    assert_eq!(fields.len(), 4);
    assert!(matches!(fields[0], Value::Unit));
    match &fields[1] {
        Value::Newtype(v) => assert!(matches!(**v, Value::U16(0x1234))),
        other => panic!("unexpected {:?}", other),
    }
    match &fields[2] {
        Value::List(cs) => {
            assert!(matches!(cs[0], Value::Char('o')));
            assert!(matches!(cs[1], Value::Char('k')));
        }
        other => panic!("unexpected {:?}", other),
    }
    match &fields[3] {
        Value::Str(s) => assert_eq!(s, "hi"),
        other => panic!("unexpected {:?}", other),
    }
    assert_eq!(d.position(), 7);
    let mut d = session(&[5]);
    assert!(matches!(d.deserialize_struct(&vec![Shape::U8]), Ok(Value::List(_))));
}

#[test]
fn unsupported_requests() {
    assert_eq!(decode(&[1], &Shape::Any).unwrap_err(), DecodeError::UnsupportedOperation);
    assert_eq!(decode(&[1], &Shape::FieldName).unwrap_err(), DecodeError::UnsupportedOperation);
    let mut d = session(&[1]);
    assert_eq!(d.deserialize_struct_field().unwrap_err(), DecodeError::UnsupportedOperation);
    assert_eq!(d.deserialize_ignored_any().unwrap_err(), DecodeError::UnsupportedOperation);
    assert_eq!(d.position(), 0);
}

#[test]
fn unit_reads_nothing() {
    let mut d = session(&[]);
    assert!(matches!(d.deserialize(&Shape::Unit), Ok(Value::Unit)));
    assert_eq!(d.position(), 0);
}

#[test]
fn invalid_details() {
    assert_eq!(Invalid::Bool(7).detail(), Some(7));
    assert_eq!(Invalid::VariantIndex(300).detail(), Some(300));
    assert_eq!(Invalid::Utf8.detail(), None);
    assert_eq!(Invalid::Bool(7).description(), "invalid u8 when decoding bool");
}

#[test]
fn mesh_loader_checks_magic_and_decodes() {
    let loader = MeshLoader::new(Shape::U32, Shape::List(Box::new(Shape::U8)));
    let mut bytes = vec![b'V', b'M', b'S', b'H', b' ', 0, 0, 1];
    bytes.extend_from_slice(&[3, 0, 0, 0, 2, 10, 20]);
    let (params, data) = loader.load(&bytes).unwrap();
    assert!(matches!(params, Value::U32(3)));
    let data = as_list(data);
    assert_eq!(data.len(), 2);
    assert!(matches!(data[1], Value::U8(20)));
    assert_eq!(loader.load(&bytes[..5]).unwrap_err(), LoadError::MagicMismatch);
    let mut wrong = bytes.clone();
    wrong[7] = 2;
    assert_eq!(loader.load(&wrong).unwrap_err(), LoadError::MagicMismatch);
    assert_eq!(
        loader.load(&bytes[..12]).unwrap_err(),
        LoadError::Decode(DecodeError::IoFailure)
    );
}

#[test]
fn typed_number_readers() {
    let mut d = Deserializer::new(
        vec![0xFF, 0x12, 0x34, 0, 0, 0, 1, 0xFF, 0xFF, 0xFF, 0xFE],
        SizeLimit::Infinite,
        Endianness::Big,
    );
    assert_eq!(d.deserialize_i8(), Ok(-1));
    assert_eq!(d.deserialize_u16(), Ok(0x1234));
    assert_eq!(d.deserialize_u32(), Ok(1));
    assert_eq!(d.deserialize_i32(), Ok(-2));
    assert_eq!(d.bytes_read(), 11);
    assert_eq!(d.deserialize_u8(), Err(DecodeError::IoFailure));
    let mut d = session(&[0xFE, 0xFF, 1, 0, 0, 0, 0, 0, 0, 0, 0xFF, 0xFF, 0xFF, 0xFF, 0xFF, 0xFF, 0xFF, 0xFF]);
    assert_eq!(d.deserialize_i16(), Ok(-2));
    assert_eq!(d.deserialize_u64(), Ok(1));
    assert_eq!(d.deserialize_i64(), Ok(-1));
    let mut d = session(&[0, 0, 0xC0, 0x3F, 0, 0, 0, 0, 0, 0, 0xF8, 0x3F]);
    assert_eq!(d.deserialize_f32().map(f32::from_bits), Ok(1.5));
    assert_eq!(d.deserialize_f64().map(f64::from_bits), Ok(1.5));
}

#[test]
fn escaped_sequence_length_is_exact() {
    let n = 300usize;
    let mut bytes = vec![0xFF, 0x2C, 0x01, 0, 0];
    for i in 0..n {
        bytes.extend_from_slice(&(i as u32).to_le_bytes());
    }
    let shape = Shape::List(Box::new(Shape::U32));
    let mut d = session(&bytes);
    let vs = as_list(d.deserialize(&shape).unwrap());
    assert_eq!(vs.len(), n);
    assert!(matches!(vs[299], Value::U32(299)));
    assert_eq!(d.position(), bytes.len());
    assert_eq!(decode(&bytes[..bytes.len() - 1], &shape).unwrap_err(), DecodeError::IoFailure);
    assert_eq!(decode(&[], &shape).unwrap_err(), DecodeError::IoFailure);
    assert!(matches!(decode(&[0], &shape), Ok(Value::List(v)) if v.is_empty()));
}

#[test]
fn golden_record_decodes_back() {
    // struct { id: u16, name: String, tags: Vec<u8>, parent: Option<u32>, kind: enum { A, B(char) } }
    let shape = Shape::Tuple(vec![
        Shape::U16,
        Shape::Str,
        Shape::Bytes,
        Shape::Option(Box::new(Shape::U32)),
        Shape::Enum(vec![Shape::Unit, Shape::Newtype(Box::new(Shape::Char))]),
    ]);
    let bytes = [
        0x01, 0x02, 3, b'a', b'b', b'c', 2, 9, 8, 1, 0x78, 0x56, 0x34, 0x12, 1, 0xC3, 0xA9,
    ];
    let mut d = session(&bytes);
    let fields = as_list(d.deserialize(&shape).unwrap());
    assert_eq!(d.position(), bytes.len());
    assert!(matches!(fields[0], Value::U16(0x0201)));
    assert!(matches!(&fields[1], Value::Str(s) if s == "abc"));
    assert!(matches!(&fields[2], Value::Bytes(b) if b == &vec![9, 8]));
    match &fields[3] {
        Value::Present(v) => assert!(matches!(**v, Value::U32(0x1234_5678))),
        other => panic!("unexpected {:?}", other),
    }
    match &fields[4] {
        Value::Variant(1, v) => match &**v {
            Value::Newtype(c) => assert!(matches!(**c, Value::Char('é'))),
            other => panic!("unexpected {:?}", other),
        },
        other => panic!("unexpected {:?}", other),
    }
}
