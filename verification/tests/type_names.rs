use glacier_bin1::types::hitman_resource::{TResourcePtr, ZRuntimeResourceID};
use glacier_bin1::types::variant::{array_type_id, make_array_ty, make_pair_ty, pair_type_id, StaticVariant, CONST_STR_BUF_SIZE};

#[test]
fn array_type_name_is_built_in_a_buffer() {
    let (buf, len) = make_array_ty("uint32");
    assert_eq!(&buf[..len], b"TArray<uint32>");
    assert!(buf[len..].iter().all(|b| *b == 0));
    assert_eq!(buf.len(), CONST_STR_BUF_SIZE);
}

#[test]
fn pair_type_name_is_built_in_a_buffer() {
    let (buf, len) = make_pair_ty("ZString", "int32");
    assert_eq!(&buf[..len], b"TPair<ZString,int32>");
}

#[test]
fn array_and_pair_type_ids() {
    assert_eq!(array_type_id("SVector3"), "TArray<SVector3>");
    assert_eq!(pair_type_id("uint8", "bool"), "TPair<uint8,bool>");
}

#[test]
fn static_type_ids() {
    assert_eq!(<u8 as StaticVariant>::TYPE_ID, "uint8");
    assert_eq!(<i64 as StaticVariant>::TYPE_ID, "int64");
    assert_eq!(<String as StaticVariant>::TYPE_ID, "ZString");
    assert_eq!(<ZRuntimeResourceID as StaticVariant>::TYPE_ID, "ZRuntimeResourceID");
    assert_eq!(<TResourcePtr as StaticVariant>::TYPE_ID, "TResourcePtr");
}
