//! Resource IDs written inline, as their high and low parts, without a record in
//! the runtime resource IDs segment: for values that hold the runtime ID itself
//! rather than an index into the list of references.
use vstd::prelude::*;
use vstd::std_specs::convert::FromSpecImpl;
use crate::bytes::{le_bytes, le_value};
use crate::de::{lemma_data_len_fits, lemma_read_twice, Bin1Deserialize, Bin1Deserializer, DeserializeError, IoError, DeserializerView};
use crate::ser::{
    lemma_extended_by_refl, lemma_extended_by_transitive, no_pointees, Aligned, Bin1Serialize, Bin1Serializer, SerializeError,
    SerializerView,
};

verus! {

/// IDs made of a high and a low 32-bit half.
pub trait ResourceID: Aligned + Bin1Deserialize {
    spec fn spec_high(&self) -> u32;

    spec fn spec_low(&self) -> u32;

    fn from_high_low(high: u32, low: u32) -> (r: Self)
        ensures
            r.spec_high() == high,
            r.spec_low() == low,
    ;

    fn high(&self) -> (r: u32)
        ensures
            r == self.spec_high(),
    ;

    fn low(&self) -> (r: u32)
        ensures
            r == self.spec_low(),
    ;
}

impl ResourceID for super::ZResourceID {
    open spec fn spec_high(&self) -> u32 {
        self.id_high
    }

    open spec fn spec_low(&self) -> u32 {
        self.id_low
    }

    fn from_high_low(high: u32, low: u32) -> (r: Self) {
        super::ZResourceID { id_high: high, id_low: low }
    }

    fn high(&self) -> (r: u32) {
        self.id_high
    }

    fn low(&self) -> (r: u32) {
        self.id_low
    }
}

impl ResourceID for super::ZRuntimeResourceID {
    open spec fn spec_high(&self) -> u32 {
        self.id_high
    }

    open spec fn spec_low(&self) -> u32 {
        self.id_low
    }

    fn from_high_low(high: u32, low: u32) -> (r: Self) {
        super::ZRuntimeResourceID { id_high: high, id_low: low }
    }

    fn high(&self) -> (r: u32) {
        self.id_high
    }

    fn low(&self) -> (r: u32) {
        self.id_low
    }
}

/// The serialised form of an ID written inline.
pub struct Ser<'a, T: ResourceID>(pub &'a T);

impl<'a, T: ResourceID> From<&'a T> for Ser<'a, T> {
    fn from(value: &'a T) -> (r: Self) {
        Ser(value)
    }
}

impl<'a, T: ResourceID> FromSpecImpl<&'a T> for Ser<'a, T> {
    open spec fn obeys_from_spec() -> bool {
        true
    }

    open spec fn from_spec(v: &'a T) -> Self {
        Ser(v)
    }
}

impl<'a, T: ResourceID> Aligned for Ser<'a, T> {
    const ALIGNMENT: usize = T::ALIGNMENT;

    proof fn alignment_is_positive() {
        T::alignment_is_positive();
    }
}

impl<'a, T: ResourceID> Bin1Serialize for Ser<'a, T> {
    open spec fn alignment_spec(&self) -> usize {
        T::ALIGNMENT
    }

    fn alignment(&self) -> (r: usize)
        ensures
            r == T::ALIGNMENT,
    {
        proof {
            assert(self.alignment_spec() == T::ALIGNMENT);
        }
        proof {
            T::alignment_is_positive();
        }
        T::ALIGNMENT
    }

    open spec fn write_spec(&self, before: SerializerView, after: SerializerView, r: Result<(), SerializeError>) -> bool {
        &&& r is Ok
        &&& after == before.append(
            le_bytes(self.0.spec_high() as nat, 4) + le_bytes(self.0.spec_low() as nat, 4),
        )
    }

    /// Writes the high half, then the low half.
    fn write(&self, ser: &mut Bin1Serializer) -> (r: Result<(), SerializeError>)
        ensures
            r is Ok,
            final(ser)@ == old(ser)@.append(
                le_bytes(self.0.spec_high() as nat, 4) + le_bytes(self.0.spec_low() as nat, 4),
            ),
    {
        let high = self.0.high();
        let low = self.0.low();
        let ghost start = ser@;
        let _ = high.write(ser);
        let ghost s1 = ser@;
        let _ = low.write(ser);
        proof {
            lemma_extended_by_transitive(start, s1, ser@);
            assert(ser@.buffer =~= start.buffer + (le_bytes(high as nat, 4) + le_bytes(low as nat, 4)));
            assert(ser@ =~= start.append(le_bytes(high as nat, 4) + le_bytes(low as nat, 4)));
        }
        Ok(())
    }

    open spec fn resolve_spec(&self, before: SerializerView, after: SerializerView, r: Result<(), SerializeError>) -> bool {
        no_pointees(before, after, r)
    }

    /// There is nothing to resolve: the value has no pointers.
    fn resolve(&self, ser: &mut Bin1Serializer) -> (r: Result<(), SerializeError>) {
        proof {
            lemma_extended_by_refl(ser@);
        }
        Ok(())
    }
}

/// The deserialised form of an ID read inline.
pub struct De<T: ResourceID>(T);

impl<T: ResourceID> De<T> {
    /// The ID read.
    pub closed spec fn id(self) -> T {
        self.0
    }

    /// The ID read.
    pub fn into_inner(self) -> (r: T)
        ensures
            r == self.id(),
    {
        self.0
    }
}

impl From<De<super::ZResourceID>> for super::ZResourceID {
    fn from(value: De<super::ZResourceID>) -> (r: Self) {
        value.0
    }
}

impl FromSpecImpl<De<super::ZResourceID>> for super::ZResourceID {
    open spec fn obeys_from_spec() -> bool {
        true
    }

    closed spec fn from_spec(v: De<super::ZResourceID>) -> Self {
        v.0
    }
}

impl From<De<super::ZRuntimeResourceID>> for super::ZRuntimeResourceID {
    fn from(value: De<super::ZRuntimeResourceID>) -> (r: Self) {
        value.0
    }
}

impl FromSpecImpl<De<super::ZRuntimeResourceID>> for super::ZRuntimeResourceID {
    open spec fn obeys_from_spec() -> bool {
        true
    }

    closed spec fn from_spec(v: De<super::ZRuntimeResourceID>) -> Self {
        v.0
    }
}

impl<T: ResourceID> Aligned for De<T> {
    const ALIGNMENT: usize = T::ALIGNMENT;

    proof fn alignment_is_positive() {
        T::alignment_is_positive();
    }
}

impl<T: ResourceID> Bin1Deserialize for De<T> {
    const SIZE: usize = 16;

    open spec fn read_spec(before: DeserializerView, after: DeserializerView, r: Result<Self, DeserializeError>) -> bool {
        &&& (after == before.after_read(8))
        &&& (r is Ok <==> before.can_read(8))
        &&& (r matches Ok(v) ==> v.id().spec_high() == le_value(
                before.bytes_at_cursor(8).subrange(0, 4),
            ) && v.id().spec_low() == le_value(before.bytes_at_cursor(8).subrange(4, 8)))
        &&& (r is Err ==> r matches Err(DeserializeError::Io(IoError::UnexpectedEof)))
    }

    /// Reads the high half, then the low half.
    fn read(de: &mut Bin1Deserializer) -> (r: Result<Self, DeserializeError>)
        ensures
            final(de)@ == old(de)@.after_read(8),
            r is Ok <==> old(de)@.can_read(8),
            r matches Ok(v) ==> v.id().spec_high() == le_value(
                old(de)@.bytes_at_cursor(8).subrange(0, 4),
            ) && v.id().spec_low() == le_value(old(de)@.bytes_at_cursor(8).subrange(4, 8)),
            r is Err ==> r matches Err(DeserializeError::Io(IoError::UnexpectedEof)),
    {
        proof {
            lemma_data_len_fits(de);
            lemma_read_twice(old(de)@, 4, 4);
        }
        let id_high = u32::read(de)?;
        let id_low = u32::read(de)?;
        Ok(De(T::from_high_low(id_high, id_low)))
    }
}

} // verus!
