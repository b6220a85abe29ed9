//! Resource IDs and resource pointers of the earlier games, aligned to 8.
use vstd::prelude::*;
use crate::bytes::{le_bytes, le_value};
use crate::de::{
    lemma_data_len_fits, lemma_read_twice, Bin1Deserialize, Bin1Deserializer, DeserializeError,
    IoError, DeserializerView};
use crate::ser::{lemma_extended_by_refl, no_pointees, Aligned, Bin1Serialize, Bin1Serializer, SerializeError, SerializerView};
use crate::types::resource::{joined, high_part, low_part, join_id, split_id, lemma_join_split, lemma_split_join};

use crate::bytes::{lemma_le_roundtrip, lemma_pow256_values};
use crate::roundtrip::{lemma_fixed_values_read_back, values_advance, values_end_aligned, values_read_back, writes_determined};
use crate::ser::{lemma_resource_ptr_recorded, lemma_runtime_resource_id_recorded};

verus! {
/// The runtime ID of a resource.
#[derive(Debug, Clone, Copy, PartialEq, Eq, Structural, PartialOrd, Ord, Hash)]
pub struct ZRuntimeResourceID {
    pub id_high: u32,
    pub id_low: u32,
}

impl ZRuntimeResourceID {
    /// The ID whose 64-bit value is `id`.
    pub open spec fn spec_from_u64(id: u64) -> Self {
        ZRuntimeResourceID { id_high: high_part(id), id_low: low_part(id) }
    }

    /// The 64-bit value of the ID.
    pub open spec fn spec_as_u64(self) -> u64 {
        joined(self.id_high, self.id_low)
    }

    /// Splits `id` into its high and low 32 bits.
    pub fn from_u64(id: u64) -> (r: Self)
        ensures
            r == Self::spec_from_u64(id),
    {
        let (id_high, id_low) = split_id(id);
        ZRuntimeResourceID { id_high, id_low }
    }

    /// Joins the high and low 32 bits.
    pub fn as_u64(&self) -> (r: u64)
        ensures
            r == self.spec_as_u64(),
    {
        join_id(self.id_high, self.id_low)
    }

    /// Splitting a 64-bit value and joining the parts gives it back.
    pub proof fn lemma_from_u64_as_u64(id: u64)
        ensures
            Self::spec_from_u64(id).spec_as_u64() == id,
    {
        lemma_join_split(id);
    }

    /// Joining the parts of an ID and splitting the value gives the ID back.
    pub proof fn lemma_as_u64_from_u64(self)
        ensures
            Self::spec_from_u64(self.spec_as_u64()) == self,
    {
        lemma_split_join(self.id_high, self.id_low);
    }
}

impl Aligned for ZRuntimeResourceID {
    const ALIGNMENT: usize = 8;

    proof fn alignment_is_positive()
        ensures
            Self::ALIGNMENT == 8,
    {
    }
}

impl Bin1Serialize for ZRuntimeResourceID {
    open spec fn alignment_spec(&self) -> usize {
        Self::ALIGNMENT
    }

    fn alignment(&self) -> (r: usize)
        ensures
            r == Self::ALIGNMENT,
    {
        proof {
            assert(self.alignment_spec() == Self::ALIGNMENT);
        }
        Self::ALIGNMENT
    }

    open spec fn write_spec(&self, before: SerializerView, after: SerializerView, r: Result<(), SerializeError>) -> bool {
        (after == (SerializerView {
                runtime_resource_ids: before.runtime_resource_ids.push(before.buffer.len() as usize),
                ..before.append(le_bytes(self.id_high as nat, 4) + le_bytes(self.id_low as nat, 4))
            }))
            && (r is Ok)
    }

    /// Writes the high and low parts, recording their position in the runtime resource IDs segment.
    fn write(&self, ser: &mut Bin1Serializer) -> (r: Result<(), SerializeError>)
        ensures
            final(ser)@ == (SerializerView {
                runtime_resource_ids: old(ser)@.runtime_resource_ids.push(old(ser)@.buffer.len() as usize),
                ..old(ser)@.append(le_bytes(self.id_high as nat, 4) + le_bytes(self.id_low as nat, 4))
            }),
            r is Ok,
    {
        ser.write_runtime_resource_id(self.id_high, self.id_low);
        Ok(())
    }

    open spec fn resolve_spec(&self, before: SerializerView, after: SerializerView, r: Result<(), SerializeError>) -> bool {
        no_pointees(before, after, r)
    }

    /// There is nothing to resolve: the value has no pointers.
    fn resolve(&self, ser: &mut Bin1Serializer) -> (r: Result<(), SerializeError>) {
        proof {
            lemma_extended_by_refl(ser@);
        }
        Ok(())
    }
}

impl Bin1Deserialize for ZRuntimeResourceID {
    const SIZE: usize = 8;

    open spec fn read_spec(before: DeserializerView, after: DeserializerView, r: Result<Self, DeserializeError>) -> bool {
        &&& (after == before.after_read(8))
        &&& (r is Ok <==> before.can_read(8))
        &&& (r matches Ok(v) ==> v == Self::from_parts(before.bytes_at_cursor(8)))
        &&& (r is Err ==> r matches Err(DeserializeError::Io(IoError::UnexpectedEof)))
    }

    /// Reads the high part, then the low part.
    fn read(de: &mut Bin1Deserializer) -> (r: Result<Self, DeserializeError>)
        ensures
            final(de)@ == old(de)@.after_read(8),
            r is Ok <==> old(de)@.can_read(8),
            r matches Ok(v) ==> v == Self::from_parts(old(de)@.bytes_at_cursor(8)),
            r is Err ==> r matches Err(DeserializeError::Io(IoError::UnexpectedEof)),
    {
        proof {
            lemma_data_len_fits(de);
            lemma_read_twice(old(de)@, 4, 4);
        }
        let id_high = u32::read(de)?;
        let id_low = u32::read(de)?;
        Ok(ZRuntimeResourceID { id_high, id_low })
    }
}

impl ZRuntimeResourceID {
    /// The ID whose high and low parts are the little-endian values of the two
    /// halves of `bytes`.
    pub open spec fn from_parts(bytes: Seq<u8>) -> Self {
        ZRuntimeResourceID {
            id_high: le_value(bytes.subrange(0, 4)) as u32,
            id_low: le_value(bytes.subrange(4, 8)) as u32,
        }
    }
}
/// A reference to a resource by its runtime ID.
#[derive(Debug, Clone, Copy, PartialEq, Eq, Structural, PartialOrd, Ord, Hash)]
pub struct TResourcePtr {
    pub id_high: u32,
    pub id_low: u32,
}

impl TResourcePtr {
    /// The ID whose 64-bit value is `id`.
    pub open spec fn spec_from_u64(id: u64) -> Self {
        TResourcePtr { id_high: high_part(id), id_low: low_part(id) }
    }

    /// The 64-bit value of the ID.
    pub open spec fn spec_as_u64(self) -> u64 {
        joined(self.id_high, self.id_low)
    }

    /// Splits `id` into its high and low 32 bits.
    pub fn from_u64(id: u64) -> (r: Self)
        ensures
            r == Self::spec_from_u64(id),
    {
        let (id_high, id_low) = split_id(id);
        TResourcePtr { id_high, id_low }
    }

    /// Joins the high and low 32 bits.
    pub fn as_u64(&self) -> (r: u64)
        ensures
            r == self.spec_as_u64(),
    {
        join_id(self.id_high, self.id_low)
    }

    /// Splitting a 64-bit value and joining the parts gives it back.
    pub proof fn lemma_from_u64_as_u64(id: u64)
        ensures
            Self::spec_from_u64(id).spec_as_u64() == id,
    {
        lemma_join_split(id);
    }

    /// Joining the parts of an ID and splitting the value gives the ID back.
    pub proof fn lemma_as_u64_from_u64(self)
        ensures
            Self::spec_from_u64(self.spec_as_u64()) == self,
    {
        lemma_split_join(self.id_high, self.id_low);
    }
}

impl Aligned for TResourcePtr {
    const ALIGNMENT: usize = 8;

    proof fn alignment_is_positive()
        ensures
            Self::ALIGNMENT == 8,
    {
    }
}

impl Bin1Serialize for TResourcePtr {
    open spec fn alignment_spec(&self) -> usize {
        Self::ALIGNMENT
    }

    fn alignment(&self) -> (r: usize)
        ensures
            r == Self::ALIGNMENT,
    {
        proof {
            assert(self.alignment_spec() == Self::ALIGNMENT);
        }
        Self::ALIGNMENT
    }

    open spec fn write_spec(&self, before: SerializerView, after: SerializerView, r: Result<(), SerializeError>) -> bool {
        (after == (SerializerView {
                resource_ptrs: before.resource_ptrs.push(before.buffer.len() as usize),
                ..before.append(le_bytes(self.id_high as nat, 4) + le_bytes(self.id_low as nat, 4))
            }))
            && (r is Ok)
    }

    /// Writes the high and low parts, recording their position in the resource pointers segment.
    fn write(&self, ser: &mut Bin1Serializer) -> (r: Result<(), SerializeError>)
        ensures
            final(ser)@ == (SerializerView {
                resource_ptrs: old(ser)@.resource_ptrs.push(old(ser)@.buffer.len() as usize),
                ..old(ser)@.append(le_bytes(self.id_high as nat, 4) + le_bytes(self.id_low as nat, 4))
            }),
            r is Ok,
    {
        ser.write_resource_ptr(self.id_high, self.id_low);
        Ok(())
    }

    open spec fn resolve_spec(&self, before: SerializerView, after: SerializerView, r: Result<(), SerializeError>) -> bool {
        no_pointees(before, after, r)
    }

    /// There is nothing to resolve: the value has no pointers.
    fn resolve(&self, ser: &mut Bin1Serializer) -> (r: Result<(), SerializeError>) {
        proof {
            lemma_extended_by_refl(ser@);
        }
        Ok(())
    }
}

impl Bin1Deserialize for TResourcePtr {
    const SIZE: usize = 8;

    open spec fn read_spec(before: DeserializerView, after: DeserializerView, r: Result<Self, DeserializeError>) -> bool {
        &&& (after == before.after_read(8))
        &&& (r is Ok <==> before.can_read(8))
        &&& (r matches Ok(v) ==> v == Self::from_parts(before.bytes_at_cursor(8)))
        &&& (r is Err ==> r matches Err(DeserializeError::Io(IoError::UnexpectedEof)))
    }

    /// Reads the high part, then the low part.
    fn read(de: &mut Bin1Deserializer) -> (r: Result<Self, DeserializeError>)
        ensures
            final(de)@ == old(de)@.after_read(8),
            r is Ok <==> old(de)@.can_read(8),
            r matches Ok(v) ==> v == Self::from_parts(old(de)@.bytes_at_cursor(8)),
            r is Err ==> r matches Err(DeserializeError::Io(IoError::UnexpectedEof)),
    {
        proof {
            lemma_data_len_fits(de);
            lemma_read_twice(old(de)@, 4, 4);
        }
        let id_high = u32::read(de)?;
        let id_low = u32::read(de)?;
        Ok(TResourcePtr { id_high, id_low })
    }
}

impl TResourcePtr {
    /// The ID whose high and low parts are the little-endian values of the two
    /// halves of `bytes`.
    pub open spec fn from_parts(bytes: Seq<u8>) -> Self {
        TResourcePtr {
            id_high: le_value(bytes.subrange(0, 4)) as u32,
            id_low: le_value(bytes.subrange(4, 8)) as u32,
        }
    }
}

impl ZRuntimeResourceID {
    /// Values read back, and each write adds bytes.
    pub proof fn lemma_values_read_back()
        ensures
            values_read_back::<Self>(),
            writes_determined::<Self>(),
            values_end_aligned::<Self>(),
            values_advance::<Self>(),
    {
        let bytes = |x: Self| le_bytes(x.id_high as nat, 4) + le_bytes(x.id_low as nat, 4);
        <Self as Aligned>::alignment_is_positive();
        lemma_pow256_values();
        assert forall|x: Self| (#[trigger] bytes(x)).len() == 8 by {
            lemma_le_roundtrip(x.id_high as nat, 4);
            lemma_le_roundtrip(x.id_low as nat, 4);
        }
        assert forall|x: Self, b: SerializerView, a: SerializerView, r: Result<(), SerializeError>|
            #[trigger] x.write_spec(b, a, r) && b.wf() && a.buffer.len() <= usize::MAX implies a.wf()
                && b.extended_by(a) && b.append(bytes(x)).extended_by(a) by {
            lemma_runtime_resource_id_recorded(b, bytes(x));
        }
        assert forall|x: Self, b: DeserializerView, a: DeserializerView, r: Result<Self, DeserializeError>|
            #![trigger <Self as Bin1Deserialize>::read_spec(b, a, r), bytes(x)]
            <Self as Bin1Deserialize>::read_spec(b, a, r) && b.can_read(8) && b.bytes_at_cursor(8) == bytes(
                x,
            ) implies r == Ok::<Self, DeserializeError>(x) && a == b.after_read(8) by {
            lemma_le_roundtrip(x.id_high as nat, 4);
            lemma_le_roundtrip(x.id_low as nat, 4);
            assert(bytes(x).subrange(0, 4) =~= le_bytes(x.id_high as nat, 4));
            assert(bytes(x).subrange(4, 8) =~= le_bytes(x.id_low as nat, 4));
        }
        lemma_fixed_values_read_back::<Self>(bytes, 8, 8);
    }
}

impl TResourcePtr {
    /// Values read back, and each write adds bytes.
    pub proof fn lemma_values_read_back()
        ensures
            values_read_back::<Self>(),
            writes_determined::<Self>(),
            values_end_aligned::<Self>(),
            values_advance::<Self>(),
    {
        let bytes = |x: Self| le_bytes(x.id_high as nat, 4) + le_bytes(x.id_low as nat, 4);
        <Self as Aligned>::alignment_is_positive();
        lemma_pow256_values();
        assert forall|x: Self| (#[trigger] bytes(x)).len() == 8 by {
            lemma_le_roundtrip(x.id_high as nat, 4);
            lemma_le_roundtrip(x.id_low as nat, 4);
        }
        assert forall|x: Self, b: SerializerView, a: SerializerView, r: Result<(), SerializeError>|
            #[trigger] x.write_spec(b, a, r) && b.wf() && a.buffer.len() <= usize::MAX implies a.wf()
                && b.extended_by(a) && b.append(bytes(x)).extended_by(a) by {
            lemma_resource_ptr_recorded(b, bytes(x));
        }
        assert forall|x: Self, b: DeserializerView, a: DeserializerView, r: Result<Self, DeserializeError>|
            #![trigger <Self as Bin1Deserialize>::read_spec(b, a, r), bytes(x)]
            <Self as Bin1Deserialize>::read_spec(b, a, r) && b.can_read(8) && b.bytes_at_cursor(8) == bytes(
                x,
            ) implies r == Ok::<Self, DeserializeError>(x) && a == b.after_read(8) by {
            lemma_le_roundtrip(x.id_high as nat, 4);
            lemma_le_roundtrip(x.id_low as nat, 4);
            assert(bytes(x).subrange(0, 4) =~= le_bytes(x.id_high as nat, 4));
            assert(bytes(x).subrange(4, 8) =~= le_bytes(x.id_low as nat, 4));
        }
        lemma_fixed_values_read_back::<Self>(bytes, 8, 8);
    }
}

} // verus!
