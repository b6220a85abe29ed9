use glacier_bin1::de::{Bin1Deserialize, Bin1Deserializer};
use glacier_bin1::ser::{Bin1Serialize, Bin1Serializer};
use glacier_bin1::types::array::TArrayRef::{De as ArrayRefDe, Ser as ArrayRefSer};
use glacier_bin1::types::array::ZHMPtrLen::{De as PtrLenDe, Ser as PtrLenSer};
use glacier_bin1::types::hitman_resource;
use glacier_bin1::types::resource::WithoutFixup::{De as FixupFreeDe, Ser as FixupFreeSer};
use glacier_bin1::types::resource::{TResourcePtr, ZResourceID, ZRuntimeResourceID};

fn read_file<T: Bin1Deserialize>(bytes: &[u8]) -> (T, u64) {
    let mut de = Bin1Deserializer::new(bytes);
    de.init().unwrap();
    assert_eq!(de.position(), 16);
    let value = T::read(&mut de).unwrap();
    (value, de.position())
}

#[test]
fn resource_ids_read_back_from_a_file() {
    let id = ZResourceID { id_high: 0x0102_0304, id_low: 0xA0B0_C0D0 };
    let bytes = Bin1Serializer::new().serialize(&id).unwrap();
    assert_eq!(read_file::<ZResourceID>(&bytes), (id, 24));

    let rrid = ZRuntimeResourceID { id_high: 7, id_low: 9 };
    let bytes = Bin1Serializer::new().serialize(&rrid).unwrap();
    assert_eq!(read_file::<ZRuntimeResourceID>(&bytes), (rrid, 24));

    let ptr = TResourcePtr { id_high: 0xFFFF_FFFF, id_low: 1 };
    let bytes = Bin1Serializer::new().serialize(&ptr).unwrap();
    assert_eq!(read_file::<TResourcePtr>(&bytes), (ptr, 24));
}

#[test]
fn aligned_resource_ids_read_back_from_a_file() {
    let rrid = hitman_resource::ZRuntimeResourceID { id_high: 3, id_low: 0x8000_0000 };
    let bytes = Bin1Serializer::new().serialize(&rrid).unwrap();
    assert_eq!(bytes[5], 8);
    assert_eq!(read_file::<hitman_resource::ZRuntimeResourceID>(&bytes), (rrid, 24));

    let ptr = hitman_resource::TResourcePtr { id_high: 0, id_low: 42 };
    let bytes = Bin1Serializer::new().serialize(&ptr).unwrap();
    assert_eq!(read_file::<hitman_resource::TResourcePtr>(&bytes), (ptr, 24));
}

#[test]
fn small_values_read_back_from_a_file() {
    let bytes = Bin1Serializer::new().serialize(&0xA5u8).unwrap();
    assert_eq!(read_file::<u8>(&bytes), (0xA5, 17));
    let bytes = Bin1Serializer::new().serialize(&false).unwrap();
    assert_eq!(read_file::<bool>(&bytes), (false, 17));
    let bytes = Bin1Serializer::new().serialize(&u64::MAX).unwrap();
    assert_eq!(read_file::<u64>(&bytes), (u64::MAX, 24));
    let bytes = Bin1Serializer::new().serialize(&i32::MIN).unwrap();
    assert_eq!(read_file::<i32>(&bytes), (i32::MIN, 20));
    let bytes = Bin1Serializer::new().serialize(&()).unwrap();
    assert_eq!(read_file::<()>(&bytes), ((), 16));
}

#[test]
fn fixed_arrays_read_back_from_a_file() {
    let values = [0x1111u16, 0x2222, 0x3333];
    let bytes = Bin1Serializer::new().serialize(&values).unwrap();
    assert_eq!(&bytes[16..22], &[0x11, 0x11, 0x22, 0x22, 0x33, 0x33]);
    assert_eq!(read_file::<[u16; 3]>(&bytes), (values, 22));

    let nested = [[1u8, 2], [3, 4]];
    let bytes = Bin1Serializer::new().serialize(&nested).unwrap();
    assert_eq!(read_file::<[[u8; 2]; 2]>(&bytes), (nested, 20));

    let ids = [ZResourceID { id_high: 1, id_low: 2 }, ZResourceID { id_high: 3, id_low: 4 }];
    let bytes = Bin1Serializer::new().serialize(&ids).unwrap();
    assert_eq!(read_file::<[ZResourceID; 2]>(&bytes), (ids, 32));
}

#[test]
fn serializing_what_was_read_gives_the_same_bytes() {
    let first = Bin1Serializer::new().serialize(&[5u32, 6, 7]).unwrap();
    let (read, _) = read_file::<[u32; 3]>(&first);
    assert_eq!(Bin1Serializer::new().serialize(&read).unwrap(), first);

    let first = Bin1Serializer::new().serialize(&ZRuntimeResourceID { id_high: 1, id_low: 2 }).unwrap();
    let (read, _) = read_file::<ZRuntimeResourceID>(&first);
    assert_eq!(Bin1Serializer::new().serialize(&read).unwrap(), first);

    let first = Bin1Serializer::new().serialize(&vec![9u16, 8]).unwrap();
    let (read, end) = read_file::<Vec<u16>>(&first);
    assert_eq!(end, 16 + 24);
    assert_eq!(Bin1Serializer::new().serialize(&read).unwrap(), first);
}

#[test]
fn id_without_fixup_reads_back() {
    let id = ZResourceID { id_high: 0xDEAD, id_low: 0xBEEF };
    let mut ser = Bin1Serializer::new();
    FixupFreeSer(&id).write_aligned(&mut ser).unwrap();
    let bytes = ser.finalise().unwrap();
    assert_eq!(&bytes[16..24], &[0xAD, 0xDE, 0, 0, 0xEF, 0xBE, 0, 0]);
    let mut de = Bin1Deserializer::new(&bytes);
    de.init().unwrap();
    let read: ZResourceID = FixupFreeDe::<ZResourceID>::read(&mut de).unwrap().into_inner();
    assert_eq!(read, id);
    assert_eq!(de.position(), 24);
}

#[test]
fn empty_array_reference_reads_back_empty() {
    let empty: [u32; 0] = [];
    let mut ser = Bin1Serializer::new();
    Bin1Serialize::write_aligned(&ArrayRefSer(&empty[..]), &mut ser).unwrap();
    let bytes = ser.finalise().unwrap();
    assert_eq!(&bytes[16..32], &[0xFFu8; 16]);
    let mut de = Bin1Deserializer::new(&bytes);
    de.init().unwrap();
    let read: Vec<u32> = ArrayRefDe::<u32>::read(&mut de).unwrap().into();
    assert!(read.is_empty());
    assert_eq!(de.position(), 32);
}

#[test]
fn array_reference_reads_back_its_elements() {
    let values = [10u32, 20, 30];
    let bytes = Bin1Serializer::new().serialize(&ArrayRefSer(&values[..])).unwrap();
    assert_eq!(&bytes[16..24], &16u64.to_le_bytes());
    assert_eq!(&bytes[24..32], &28u64.to_le_bytes());
    let mut de = Bin1Deserializer::new(&bytes);
    de.init().unwrap();
    let read: Vec<u32> = ArrayRefDe::<u32>::read(&mut de).unwrap().into();
    assert_eq!(read, values.to_vec());
    assert_eq!(de.position(), 32);
}

#[test]
fn pointer_with_length_reads_back_its_elements() {
    let values = [7u16, 8, 9];
    let bytes = Bin1Serializer::new().serialize(&PtrLenSer(&values[..])).unwrap();
    assert_eq!(&bytes[16..24], &16u64.to_le_bytes());
    assert_eq!(&bytes[24..32], &3u64.to_le_bytes());
    let mut de = Bin1Deserializer::new(&bytes);
    de.init().unwrap();
    let read: Vec<u16> = PtrLenDe::<u16>::read(&mut de).unwrap().into();
    assert_eq!(read, values.to_vec());
    assert_eq!(de.position(), 32);
}

#[test]
fn empty_pointer_with_length_reads_two_of_its_three_words() {
    let empty: [u16; 0] = [];
    let bytes = Bin1Serializer::new().serialize(&PtrLenSer(&empty[..])).unwrap();
    assert_eq!(&bytes[16..40], &[0xFFu8; 24]);
    let mut de = Bin1Deserializer::new(&bytes);
    de.init().unwrap();
    let read: Vec<u16> = PtrLenDe::<u16>::read(&mut de).unwrap().into();
    assert!(read.is_empty());
    assert_eq!(de.position(), 32);
}
