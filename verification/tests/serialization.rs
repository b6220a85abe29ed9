use std::sync::Arc;

use glacier_bin1::de::{Bin1Deserialize, Bin1Deserializer, DeserializeError, IoError};
use glacier_bin1::ser::{Bin1Serialize, Bin1Serializer, SerializeError};
use glacier_bin1::types::resource::{ZResourceID, ZRuntimeResourceID};
use glacier_bin1::types::variant::{variant_payload, TypeID, VariantPayload};

fn header(count: u8, alignment: u8, size: u32) -> Vec<u8> {
    let mut h = vec![0x42, 0x49, 0x4E, 0x31, 0, alignment, count, 0];
    h.extend_from_slice(&size.to_be_bytes());
    h.extend_from_slice(&[0, 0, 0, 0]);
    h
}

#[test]
fn new_serializer_finalises_to_an_empty_file() {
    let bytes = Bin1Serializer::new().finalise().unwrap();
    assert_eq!(bytes, header(0, 1, 0));
}

#[test]
fn serialize_u32_writes_header_and_value() {
    let bytes = Bin1Serializer::new().serialize(&0x1122_3344u32).unwrap();
    let mut expected = header(0, 4, 4);
    expected.extend_from_slice(&[0x44, 0x33, 0x22, 0x11]);
    assert_eq!(bytes, expected);
}

#[test]
fn serialized_integers_read_back() {
    let bytes = Bin1Serializer::new().serialize(&-5i64).unwrap();
    let mut de = Bin1Deserializer::new(&bytes);
    de.init().unwrap();
    assert_eq!(de.position(), 16);
    assert_eq!(i64::read(&mut de).unwrap(), -5);

    let bytes = Bin1Serializer::new().serialize(&0xBEEFu16).unwrap();
    let mut de = Bin1Deserializer::new(&bytes);
    de.init().unwrap();
    assert_eq!(u16::read(&mut de).unwrap(), 0xBEEF);
}

#[test]
fn type_id_reads_back_as_its_name() {
    let bytes = Bin1Serializer::new().serialize(&TypeID("SVector3".to_owned())).unwrap();
    let mut expected = header(1, 8, 8);
    expected.extend_from_slice(&[0; 8]);
    expected.extend_from_slice(&0x3989BF9Fu32.to_le_bytes());
    expected.extend_from_slice(&33u32.to_le_bytes());
    expected.extend_from_slice(&1u32.to_le_bytes());
    expected.extend_from_slice(&0u32.to_le_bytes());
    expected.extend_from_slice(&1u32.to_le_bytes());
    expected.extend_from_slice(&0u32.to_le_bytes());
    expected.extend_from_slice(&u32::MAX.to_le_bytes());
    expected.extend_from_slice(&9u32.to_le_bytes());
    expected.extend_from_slice(b"SVector3\0");
    assert_eq!(bytes, expected);

    let mut de = Bin1Deserializer::new(&bytes);
    de.init().unwrap();
    let ty = TypeID::read(&mut de).unwrap();
    assert_eq!(ty.0, "SVector3");
}

#[test]
fn repeated_type_names_share_an_index() {
    let mut ser = Bin1Serializer::new();
    ser.write_type("A");
    ser.write_type("B");
    ser.write_type("A");
    let bytes = ser.finalise().unwrap();
    assert_eq!(&bytes[16..24], &0u64.to_le_bytes());
    assert_eq!(&bytes[24..32], &1u64.to_le_bytes());
    assert_eq!(&bytes[32..40], &0u64.to_le_bytes());
    let mut de = Bin1Deserializer::new(&bytes);
    de.init().unwrap();
    assert_eq!(de.read_type().unwrap(), "A");
    assert_eq!(de.read_type().unwrap(), "B");
    assert_eq!(de.read_type().unwrap(), "A");
}

#[test]
fn vector_reads_back() {
    let values = vec![1u32, 2, 3, 0xFFFF_FFFF];
    let bytes = Bin1Serializer::new().serialize(&values).unwrap();
    let mut de = Bin1Deserializer::new(&bytes);
    de.init().unwrap();
    assert_eq!(Vec::<u32>::read(&mut de).unwrap(), values);
}

#[test]
fn small_vector_is_stored_inline() {
    let values = vec![1u32, 2];
    let bytes = Bin1Serializer::new().serialize(&values).unwrap();
    assert_eq!(&bytes[16..24], &[1, 0, 0, 0, 2, 0, 0, 0]);
    assert_eq!(&bytes[24..32], &[0u8; 8]);
    assert_eq!(&bytes[32..40], &0x4000_0000_0000_0202u64.to_le_bytes());
    let mut de = Bin1Deserializer::new(&bytes);
    de.init().unwrap();
    assert_eq!(Vec::<u32>::read(&mut de).unwrap(), values);
}

#[test]
fn pointer_reads_back() {
    let mut ser = Bin1Serializer::new();
    ser.write_pointer(7);
    ser.register_pointee(7);
    0xABCDu32.write_aligned(&mut ser).unwrap();
    let bytes = ser.finalise().unwrap();
    assert_eq!(&bytes[16..24], &8u64.to_le_bytes());
    let mut de = Bin1Deserializer::new(&bytes);
    de.init().unwrap();
    let value: Arc<u32> = de.read_pointer().unwrap();
    assert_eq!(*value, 0xABCD);
}

#[test]
fn null_pointer_stays_null() {
    let mut ser = Bin1Serializer::new();
    ser.write_pointer(u64::MAX);
    let bytes = ser.finalise().unwrap();
    let mut de = Bin1Deserializer::new(&bytes);
    de.seek_from_start(16).unwrap();
    assert_eq!(de.read_u64().unwrap(), u64::MAX);
}

#[test]
fn try_finalise_names_the_first_unresolved_pointer() {
    let mut ser = Bin1Serializer::new();
    ser.write_pointer(5);
    ser.write_pointer(42);
    ser.write_pointer(43);
    ser.register_pointee(5);
    assert!(matches!(ser.try_finalise(), Err(SerializeError::UnresolvedPointer(42))));
}

#[test]
fn try_finalise_finishes_a_resolved_file() {
    let mut ser = Bin1Serializer::new();
    ser.write_pointer(5);
    ser.register_pointee(5);
    let bytes = ser.try_finalise().unwrap();
    assert_eq!(&bytes[16..24], &8u64.to_le_bytes());
}

#[test]
fn unresolved_pointer_is_an_error() {
    let mut ser = Bin1Serializer::new();
    ser.write_pointer(42);
    assert!(matches!(ser.serialize(&0u8), Err(SerializeError::UnresolvedPointer(42))));
}

#[test]
fn resource_ids_are_recorded_in_a_segment() {
    let mut ser = Bin1Serializer::new();
    ZRuntimeResourceID::from_u64(0x0000_0001_0000_0002).write_aligned(&mut ser).unwrap();
    let bytes = ser.finalise().unwrap();
    assert_eq!(bytes[6], 1);
    assert_eq!(&bytes[16..24], &[1, 0, 0, 0, 2, 0, 0, 0]);
    assert_eq!(&bytes[24..28], &0x578FBCEEu32.to_le_bytes());
    assert_eq!(&bytes[28..32], &8u32.to_le_bytes());
    assert_eq!(&bytes[32..36], &1u32.to_le_bytes());
    assert_eq!(&bytes[36..40], &0u32.to_le_bytes());
    let mut de = Bin1Deserializer::new(&bytes);
    de.init().unwrap();
    let read = ZRuntimeResourceID::read(&mut de).unwrap();
    assert_eq!(read.as_u64(), 0x0000_0001_0000_0002);
}

#[test]
fn resource_ids_segment_can_be_disabled() {
    let mut ser = Bin1Serializer::new().with_rrids_segment(false);
    ZResourceID::from_u64(5).write_aligned(&mut ser).unwrap();
    let bytes = ser.finalise().unwrap();
    assert_eq!(bytes[6], 0);
    assert_eq!(bytes.len(), 24);
}

#[test]
fn bad_magic_is_refused() {
    let mut data = header(0, 1, 0);
    data[0] = b'X';
    let mut de = Bin1Deserializer::new(&data);
    assert!(matches!(de.init(), Err(DeserializeError::InvalidMagic)));
}

#[test]
fn short_file_is_refused() {
    let data = [0x42u8, 0x49, 0x4E];
    let mut de = Bin1Deserializer::new(&data);
    assert!(matches!(de.init(), Err(DeserializeError::Io(IoError::UnexpectedEof))));
}

#[test]
fn reading_past_the_end_is_refused() {
    let data = header(0, 1, 0);
    let mut de = Bin1Deserializer::new(&data);
    de.init().unwrap();
    assert!(matches!(de.read_u8(), Err(DeserializeError::Io(IoError::UnexpectedEof))));
}

#[test]
fn unknown_type_id_is_refused() {
    let mut data = header(0, 8, 8);
    data.extend_from_slice(&3u64.to_le_bytes());
    let mut de = Bin1Deserializer::new(&data);
    de.init().unwrap();
    assert!(matches!(de.read_type(), Err(DeserializeError::NoSuchTypeID(3))));
}

#[test]
fn zstring_is_read_from_its_offset() {
    let mut data = header(0, 8, 21);
    data.extend_from_slice(&[5, 0, 0, 0x40, 0, 0, 0, 0]);
    data.extend_from_slice(&16u64.to_le_bytes());
    data.extend_from_slice(b"hello");
    let mut de = Bin1Deserializer::new(&data);
    de.init().unwrap();
    assert_eq!(de.read_zstring().unwrap(), "hello");
    assert_eq!(de.position(), 32);
}

#[test]
fn zstring_past_the_end_is_too_large() {
    let mut data = header(0, 8, 16);
    data.extend_from_slice(&[50, 0, 0, 0, 0, 0, 0, 0]);
    data.extend_from_slice(&0u64.to_le_bytes());
    let mut de = Bin1Deserializer::new(&data);
    de.init().unwrap();
    assert!(matches!(de.read_zstring(), Err(DeserializeError::StringTooLarge)));
}

#[test]
fn seeking_before_the_start_is_refused() {
    let data = header(0, 1, 0);
    let mut de = Bin1Deserializer::new(&data);
    assert!(matches!(de.seek_relative(-1), Err(DeserializeError::Io(IoError::InvalidSeek))));
    assert_eq!(de.seek_from_start(10).unwrap(), 10);
    de.align_to(8).unwrap();
    assert_eq!(de.position(), 16);
}

#[test]
fn bool_and_signed_values_read_back() {
    let mut ser = Bin1Serializer::new();
    true.write_aligned(&mut ser).unwrap();
    (-2i8).write_aligned(&mut ser).unwrap();
    (-300i16).write_aligned(&mut ser).unwrap();
    (-70000i32).write_aligned(&mut ser).unwrap();
    let bytes = ser.finalise().unwrap();
    let mut de = Bin1Deserializer::new(&bytes);
    de.init().unwrap();
    assert!(bool::read(&mut de).unwrap());
    assert_eq!(i8::read(&mut de).unwrap(), -2);
    de.align_to(2).unwrap();
    assert_eq!(i16::read(&mut de).unwrap(), -300);
    de.align_to(4).unwrap();
    assert_eq!(i32::read(&mut de).unwrap(), -70000);
}

#[test]
fn pair_reads_both_values_with_padding() {
    let mut data = header(0, 4, 8);
    data.extend_from_slice(&[7, 0xEE, 0xEE, 0xEE, 1, 0, 0, 0]);
    let mut de = Bin1Deserializer::new(&data);
    de.init().unwrap();
    let pair = <(u8, u32)>::read(&mut de).unwrap();
    assert_eq!(pair, (7, 1));
    assert_eq!(de.position(), 24);
    assert_eq!(<(u8, u32) as Bin1Deserialize>::SIZE, 8);
    assert_eq!(<(u64, u8) as glacier_bin1::ser::Aligned>::ALIGNMENT, 8);
}

#[test]
fn void_variants_skip_their_payload() {
    assert!(matches!(variant_payload("void", false), Ok(VariantPayload::Skip)));
    assert!(matches!(variant_payload("void", true), Ok(VariantPayload::Skip)));
    assert!(matches!(variant_payload("SVector3", true), Ok(VariantPayload::Read)));
    match variant_payload("SVector3", false) {
        Err(DeserializeError::UnknownType(t)) => assert_eq!(t, "SVector3"),
        _ => panic!("expected an unknown type"),
    }
}

#[test]
fn empty_vector_reads_back_empty() {
    let values: Vec<u32> = Vec::new();
    let bytes = Bin1Serializer::new().serialize(&values).unwrap();
    let mut de = Bin1Deserializer::new(&bytes);
    de.init().unwrap();
    let start = de.position();
    assert_eq!(Vec::<u32>::read(&mut de).unwrap(), values);
    assert_eq!(de.position(), start + 24);
}
