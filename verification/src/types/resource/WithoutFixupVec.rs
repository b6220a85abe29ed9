//! Arrays of resource IDs written inline, each as its high and low parts, without
//! records in the runtime resource IDs segment.
use vstd::prelude::*;
use vstd::std_specs::convert::FromSpecImpl;
use crate::de::{Bin1Deserialize, Bin1Deserializer, DeserializeError, DeserializerView};
use crate::bytes::le_bytes;
use crate::ser::{
    zeros, Aligned, Bin1Serialize, Bin1Serializer, SerializeError, SerializerView, NULL_POINTER_ID,
};
use crate::types::array::{
    address_of, array_flags, inline_flags, inline_padding, is_inline, resolve_tarray, tarray_write_spec,
    tarray_resolve_spec,
    write_tarray,
    END_ID_TAG, INLINE_FLAG, START_ID_TAG,
};
use crate::types::resource::WithoutFixup::{ResourceID, De as IdDe, Ser as IdSer};

verus! {

/// The serialised form of a slice of IDs.
pub struct Ser<'a, T: ResourceID>(pub &'a [T]);

impl<'a, T: ResourceID> From<&'a [T]> for Ser<'a, T> {
    fn from(value: &'a [T]) -> (r: Self) {
        Ser(value)
    }
}

impl<'a, T: ResourceID> FromSpecImpl<&'a [T]> for Ser<'a, T> {
    open spec fn obeys_from_spec() -> bool {
        true
    }

    open spec fn from_spec(v: &'a [T]) -> Self {
        Ser(v)
    }
}

impl<'a, T: ResourceID> From<&'a Vec<T>> for Ser<'a, T> {
    fn from(value: &'a Vec<T>) -> (r: Self) {
        Ser(value.as_slice())
    }
}

impl<'a, T: ResourceID> FromSpecImpl<&'a Vec<T>> for Ser<'a, T> {
    open spec fn obeys_from_spec() -> bool {
        false
    }

    open spec fn from_spec(v: &'a Vec<T>) -> Self {
        arbitrary()
    }
}

impl<'a, T: ResourceID> Aligned for Ser<'a, T> {
    const ALIGNMENT: usize = 8;

    proof fn alignment_is_positive() {
    }
}

/// `ids` refer to the IDs `items`, one for one.
pub open spec fn inline_ids_of<'a, T: ResourceID>(items: Seq<T>, ids: Seq<IdSer<'a, T>>) -> bool {
    ids.len() == items.len() && forall|i: int| 0 <= i < items.len() ==> *(#[trigger] ids[i]).0 == items[i]
}

/// The IDs of `items`, each to be written inline.
fn inline_ids<'a, T: ResourceID>(items: &'a [T]) -> (r: Vec<IdSer<'a, T>>)
    ensures
        r@.len() == items@.len(),
        forall|i: int| 0 <= i < items@.len() ==> *(#[trigger] r@[i]).0 == items@[i],
{
    let mut ids: Vec<IdSer<'a, T>> = Vec::new();
    let mut i: usize = 0;
    while i < items.len()
        invariant
            i <= items@.len(),
            ids@.len() == i,
            forall|k: int| 0 <= k < i ==> *(#[trigger] ids@[k]).0 == items@[k],
        decreases items@.len() - i,
    {
        ids.push(IdSer(&items[i]));
        i = i + 1;
    }
    ids
}

impl<'a, T: ResourceID> Bin1Serialize for Ser<'a, T> {
    open spec fn alignment_spec(&self) -> usize {
        8
    }

    fn alignment(&self) -> (r: usize)
        ensures
            r == 8,
    {
        proof {
            assert(self.alignment_spec() == 8);
        }
        8
    }

    open spec fn write_spec(&self, before: SerializerView, after: SerializerView, r: Result<(), SerializeError>) -> bool {
        exists|ids: Seq<IdSer<'a, T>>, address: u64|
            #![trigger tarray_write_spec(ids, T::SIZE as nat, address, before, after, r)]
            inline_ids_of(self.0@, ids) && tarray_write_spec(ids, T::SIZE as nat, address, before, after, r)
    }

    /// Writes the IDs as a TArray, each inline.
    fn write(&self, ser: &mut Bin1Serializer) -> (r: Result<(), SerializeError>)
        ensures
            exists|ids: Seq<IdSer<'a, T>>, address: u64|
                #![trigger tarray_write_spec(ids, T::SIZE as nat, address, old(ser)@, final(ser)@, r)]
                inline_ids_of(self.0@, ids) && tarray_write_spec(
                    ids,
                    T::SIZE as nat,
                    address,
                    old(ser)@,
                    final(ser)@,
                    r,
                ),
    {
        let ids = inline_ids(self.0);
        let addr = address_of(self.0);
        let r = write_tarray(ids.as_slice(), T::SIZE, addr, ser);
        proof {
            assert(inline_ids_of(self.0@, ids@));
            assert(tarray_write_spec(ids@, T::SIZE as nat, addr, old(ser)@, ser@, r));
        }
        r
    }

    open spec fn resolve_spec(&self, before: SerializerView, after: SerializerView, r: Result<(), SerializeError>) -> bool {
        exists|ids: Seq<IdSer<'a, T>>, address: u64|
            #![trigger tarray_resolve_spec(ids, T::SIZE as nat, address, before, after, r)]
            inline_ids_of(self.0@, ids) && tarray_resolve_spec(ids, T::SIZE as nat, address, before, after, r)
    }

    /// Writes the IDs where the TArray's pointers point, unless they are inline.
    fn resolve(&self, ser: &mut Bin1Serializer) -> (r: Result<(), SerializeError>)
        ensures
            self.0@.len() == 0 || is_inline(self.0@.len(), T::SIZE as nat) ==> final(ser)@ == old(
                ser,
            )@ && r is Ok,
            self.0@.len() > 0 && !is_inline(self.0@.len(), T::SIZE as nat) ==> exists|start_id: u64|
                #![trigger old(ser)@.offsets.contains_key(start_id)]
                start_id & START_ID_TAG == START_ID_TAG && (old(ser)@.offsets.contains_key(
                    start_id,
                ) ==> final(ser)@ == old(ser)@ && r is Ok) && (r is Ok
                    ==> final(ser)@.offsets.contains_key(start_id)),
    {
        let ids = inline_ids(self.0);
        let addr = address_of(self.0);
        let r = resolve_tarray(ids.as_slice(), T::SIZE, addr, ser);
        proof {
            let start_id = addr | START_ID_TAG;
            assert(start_id & 0xABCD_0000_0000_0000 == 0xABCD_0000_0000_0000) by (bit_vector)
                requires
                    start_id == addr | 0xABCD_0000_0000_0000,
            ;
        }
        r
    }
}

/// The deserialised form of an array of inline IDs.
pub struct De<T: ResourceID>(Vec<T>);

impl<T: ResourceID> De<T> {
    /// The IDs read.
    pub closed spec fn ids(self) -> Seq<T> {
        self.0@
    }
}

impl From<De<super::ZResourceID>> for Vec<super::ZResourceID> {
    fn from(value: De<super::ZResourceID>) -> (r: Self) {
        value.0
    }
}

impl FromSpecImpl<De<super::ZResourceID>> for Vec<super::ZResourceID> {
    open spec fn obeys_from_spec() -> bool {
        true
    }

    closed spec fn from_spec(v: De<super::ZResourceID>) -> Self {
        v.0
    }
}

impl From<De<super::ZRuntimeResourceID>> for Vec<super::ZRuntimeResourceID> {
    fn from(value: De<super::ZRuntimeResourceID>) -> (r: Self) {
        value.0
    }
}

impl FromSpecImpl<De<super::ZRuntimeResourceID>> for Vec<super::ZRuntimeResourceID> {
    open spec fn obeys_from_spec() -> bool {
        true
    }

    closed spec fn from_spec(v: De<super::ZRuntimeResourceID>) -> Self {
        v.0
    }
}

impl<T: ResourceID> Aligned for De<T> {
    const ALIGNMENT: usize = 8;

    proof fn alignment_is_positive() {
    }
}

impl<T: ResourceID> Bin1Deserialize for De<T> {
    const SIZE: usize = 24;

    open spec fn read_spec(before: DeserializerView, after: DeserializerView, r: Result<Self, DeserializeError>) -> bool {
        &&& (match array_flags(before) {
                None => r is Err,
                Some((next, flags)) => {
                    &&& flags == NULL_POINTER_ID ==> (r matches Ok(v) && v.ids().len() == 0
                        && after == next)
                    &&& flags != NULL_POINTER_ID && r is Ok ==> after == next
                    &&& flags != NULL_POINTER_ID && (flags / INLINE_FLAG) % 2 == 1 ==> (r matches Ok(
                        v,
                    ) ==> v.ids().len() == flags % 256)
                },
            })
    }

    /// Reads a TArray of inline IDs.
    fn read(de: &mut Bin1Deserializer) -> (r: Result<Self, DeserializeError>)
        ensures
            match array_flags(old(de)@) {
                None => r is Err,
                Some((after, flags)) => {
                    &&& flags == NULL_POINTER_ID ==> (r matches Ok(v) && v.ids().len() == 0
                        && final(de)@ == after)
                    &&& flags != NULL_POINTER_ID && r is Ok ==> final(de)@ == after
                    &&& flags != NULL_POINTER_ID && (flags / INLINE_FLAG) % 2 == 1 ==> (r matches Ok(
                        v,
                    ) ==> v.ids().len() == flags % 256)
                },
            },
    {
        let items = Vec::<IdDe<T>>::read(de)?;
        let mut ids: Vec<T> = Vec::new();
        let n = items.len();
        let mut rest = items;
        let mut i: usize = 0;
        while i < n
            invariant
                i <= n,
                rest@.len() == n - i,
                ids@.len() == i,
            decreases n - i,
        {
            let item = rest.remove(0);
            ids.push(item.into_inner());
            i = i + 1;
        }
        Ok(De(ids))
    }
}

} // verus!
