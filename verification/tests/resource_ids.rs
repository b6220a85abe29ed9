use glacier_bin1::types::hitman_resource;
use glacier_bin1::types::resource::{TResourcePtr, ZResourceID, ZRuntimeResourceID};
use glacier_bin1::types::resource::WithoutFixup::ResourceID;

#[test]
fn resource_id_round_trips_through_u64() {
    let id = ZResourceID::from_u64(0x0123_4567_89AB_CDEF);
    assert_eq!(id.as_u64(), 0x0123_4567_89AB_CDEF);
    assert_eq!(id.high(), 0x0123_4567);
    assert_eq!(id.low(), 0x89AB_CDEF);
}

#[test]
fn runtime_resource_id_round_trips_through_u64() {
    let id = ZRuntimeResourceID::from_u64(0x00AB_CDEF_0011_2233);
    assert_eq!(id.as_u64(), 0x00AB_CDEF_0011_2233);
    let id = hitman_resource::ZRuntimeResourceID::from_u64(u64::MAX);
    assert_eq!(id.as_u64(), u64::MAX);
}

#[test]
fn resource_ptr_round_trips_through_u64() {
    let ptr = TResourcePtr::from_u64(42);
    assert_eq!(ptr.as_u64(), 42);
    let ptr = hitman_resource::TResourcePtr::from_u64(0x8000_0000_0000_0001);
    assert_eq!(ptr.as_u64(), 0x8000_0000_0000_0001);
}

#[test]
fn resource_id_from_halves() {
    let id = ZResourceID::from_high_low(1, 2);
    assert_eq!(id.as_u64(), (1u64 << 32) | 2);
    let rid = ZRuntimeResourceID::from_high_low(0xFFFF_FFFF, 0);
    assert_eq!(rid.as_u64(), 0xFFFF_FFFF_0000_0000);
}

#[test]
fn resource_ptr_order_is_value_order() {
    let pairs = [(0u64, 1u64), (0xFFFF_FFFF, 0x1_0000_0000), (0x1_0000_0002, 0x2_0000_0001), (7, 7)];
    for (x, y) in pairs {
        let a = TResourcePtr::from_u64(x);
        let b = TResourcePtr::from_u64(y);
        assert_eq!(a.cmp(&b), a.as_u64().cmp(&b.as_u64()));
        assert_eq!(a == b, a.as_u64() == b.as_u64());
    }
}
