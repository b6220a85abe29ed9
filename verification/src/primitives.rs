//! The BIN1 encodings of integers, booleans, the unit type and pointers, and that
//! the values of the fixed-size ones read back.
use vstd::prelude::*;
use std::sync::Arc;
use crate::bytes::{le_bytes, le_value, lemma_le_roundtrip, lemma_pow256_values};
use crate::roundtrip::{lemma_fixed_values_read_back, values_advance, values_end_aligned, values_read_back, writes_determined};
use crate::de::{Bin1Deserialize, Bin1Deserializer, DeserializeError, DeserializerView, IoError};
use crate::ser::{
    lemma_append_wf, lemma_extended_by_refl, no_pointees, Aligned, Bin1Serialize, Bin1Serializer, SerializeError, SerializerView,
    NULL_POINTER_ID,
};

verus! {

impl Aligned for u8 {
    const ALIGNMENT: usize = 1;

    proof fn alignment_is_positive()
        ensures
            Self::ALIGNMENT == 1,
    {
    }
}

/// A `u8` is written as its 1 little-endian bytes.
impl Bin1Serialize for u8 {
    open spec fn alignment_spec(&self) -> usize {
        1
    }

    fn alignment(&self) -> (r: usize)
        ensures
            r == 1,
    {
        proof {
            assert(self.alignment_spec() == 1);
        }
        1
    }

    open spec fn write_spec(&self, before: SerializerView, after: SerializerView, r: Result<(), SerializeError>) -> bool {
        after == before.append(le_bytes(*self as nat, 1)) && r is Ok
    }

    fn write(&self, ser: &mut Bin1Serializer) -> (r: Result<(), SerializeError>)
        ensures
            final(ser)@ == old(ser)@.append(le_bytes(*self as nat, 1)),
            r is Ok,
    {
        proof {
            lemma_append_wf(old(ser)@, le_bytes(*self as nat, 1));
        }
        ser.write_le(*self as u64, 1);
        Ok(())
    }

    open spec fn resolve_spec(&self, before: SerializerView, after: SerializerView, r: Result<(), SerializeError>) -> bool {
        no_pointees(before, after, r)
    }

    /// There is nothing to resolve: the value has no pointers.
    fn resolve(&self, ser: &mut Bin1Serializer) -> (r: Result<(), SerializeError>) {
        proof {
            lemma_extended_by_refl(ser@);
        }
        Ok(())
    }
}

impl Bin1Deserialize for u8 {
    const SIZE: usize = 1;

    open spec fn read_spec(before: DeserializerView, after: DeserializerView, r: Result<Self, DeserializeError>) -> bool {
        &&& (after == before.after_read(1))
        &&& (r is Ok <==> before.can_read(1))
        &&& (r matches Ok(v) ==> v as nat == le_value(before.bytes_at_cursor(1)))
        &&& (r is Err ==> r matches Err(DeserializeError::Io(IoError::UnexpectedEof)))
    }

    fn read(de: &mut Bin1Deserializer) -> (r: Result<Self, DeserializeError>)
        ensures
            final(de)@ == old(de)@.after_read(1),
            r is Ok <==> old(de)@.can_read(1),
            r matches Ok(v) ==> v as nat == le_value(old(de)@.bytes_at_cursor(1)),
            r is Err ==> r matches Err(DeserializeError::Io(IoError::UnexpectedEof)),
    {
        de.read_u8()
    }
}

impl Aligned for u16 {
    const ALIGNMENT: usize = 2;

    proof fn alignment_is_positive()
        ensures
            Self::ALIGNMENT == 2,
    {
    }
}

/// A `u16` is written as its 2 little-endian bytes.
impl Bin1Serialize for u16 {
    open spec fn alignment_spec(&self) -> usize {
        2
    }

    fn alignment(&self) -> (r: usize)
        ensures
            r == 2,
    {
        proof {
            assert(self.alignment_spec() == 2);
        }
        2
    }

    open spec fn write_spec(&self, before: SerializerView, after: SerializerView, r: Result<(), SerializeError>) -> bool {
        (after == before.append(le_bytes(*self as nat, 2)))
            && (r is Ok)
    }

    fn write(&self, ser: &mut Bin1Serializer) -> (r: Result<(), SerializeError>)
        ensures
            final(ser)@ == old(ser)@.append(le_bytes(*self as nat, 2)),
            r is Ok,
    {
        proof {
            lemma_append_wf(old(ser)@, le_bytes(*self as nat, 2));
        }
        ser.write_le(*self as u64, 2);
        Ok(())
    }

    open spec fn resolve_spec(&self, before: SerializerView, after: SerializerView, r: Result<(), SerializeError>) -> bool {
        no_pointees(before, after, r)
    }

    /// There is nothing to resolve: the value has no pointers.
    fn resolve(&self, ser: &mut Bin1Serializer) -> (r: Result<(), SerializeError>) {
        proof {
            lemma_extended_by_refl(ser@);
        }
        Ok(())
    }
}

impl Bin1Deserialize for u16 {
    const SIZE: usize = 2;

    open spec fn read_spec(before: DeserializerView, after: DeserializerView, r: Result<Self, DeserializeError>) -> bool {
        &&& (after == before.after_read(2))
        &&& (r is Ok <==> before.can_read(2))
        &&& (r matches Ok(v) ==> v as nat == le_value(before.bytes_at_cursor(2)))
        &&& (r is Err ==> r matches Err(DeserializeError::Io(IoError::UnexpectedEof)))
    }

    fn read(de: &mut Bin1Deserializer) -> (r: Result<Self, DeserializeError>)
        ensures
            final(de)@ == old(de)@.after_read(2),
            r is Ok <==> old(de)@.can_read(2),
            r matches Ok(v) ==> v as nat == le_value(old(de)@.bytes_at_cursor(2)),
            r is Err ==> r matches Err(DeserializeError::Io(IoError::UnexpectedEof)),
    {
        de.read_u16()
    }
}

impl Aligned for u32 {
    const ALIGNMENT: usize = 4;

    proof fn alignment_is_positive()
        ensures
            Self::ALIGNMENT == 4,
    {
    }
}

/// A `u32` is written as its 4 little-endian bytes.
impl Bin1Serialize for u32 {
    open spec fn alignment_spec(&self) -> usize {
        4
    }

    fn alignment(&self) -> (r: usize)
        ensures
            r == 4,
    {
        proof {
            assert(self.alignment_spec() == 4);
        }
        4
    }

    open spec fn write_spec(&self, before: SerializerView, after: SerializerView, r: Result<(), SerializeError>) -> bool {
        (after == before.append(le_bytes(*self as nat, 4)))
            && (r is Ok)
    }

    fn write(&self, ser: &mut Bin1Serializer) -> (r: Result<(), SerializeError>)
        ensures
            final(ser)@ == old(ser)@.append(le_bytes(*self as nat, 4)),
            r is Ok,
    {
        proof {
            lemma_append_wf(old(ser)@, le_bytes(*self as nat, 4));
        }
        ser.write_le(*self as u64, 4);
        Ok(())
    }

    open spec fn resolve_spec(&self, before: SerializerView, after: SerializerView, r: Result<(), SerializeError>) -> bool {
        no_pointees(before, after, r)
    }

    /// There is nothing to resolve: the value has no pointers.
    fn resolve(&self, ser: &mut Bin1Serializer) -> (r: Result<(), SerializeError>) {
        proof {
            lemma_extended_by_refl(ser@);
        }
        Ok(())
    }
}

impl Bin1Deserialize for u32 {
    const SIZE: usize = 4;

    open spec fn read_spec(before: DeserializerView, after: DeserializerView, r: Result<Self, DeserializeError>) -> bool {
        &&& (after == before.after_read(4))
        &&& (r is Ok <==> before.can_read(4))
        &&& (r matches Ok(v) ==> v as nat == le_value(before.bytes_at_cursor(4)))
        &&& (r is Err ==> r matches Err(DeserializeError::Io(IoError::UnexpectedEof)))
    }

    fn read(de: &mut Bin1Deserializer) -> (r: Result<Self, DeserializeError>)
        ensures
            final(de)@ == old(de)@.after_read(4),
            r is Ok <==> old(de)@.can_read(4),
            r matches Ok(v) ==> v as nat == le_value(old(de)@.bytes_at_cursor(4)),
            r is Err ==> r matches Err(DeserializeError::Io(IoError::UnexpectedEof)),
    {
        de.read_u32()
    }
}

impl Aligned for u64 {
    const ALIGNMENT: usize = 8;

    proof fn alignment_is_positive()
        ensures
            Self::ALIGNMENT == 8,
    {
    }
}

/// A `u64` is written as its 8 little-endian bytes.
impl Bin1Serialize for u64 {
    open spec fn alignment_spec(&self) -> usize {
        8
    }

    fn alignment(&self) -> (r: usize)
        ensures
            r == 8,
    {
        proof {
            assert(self.alignment_spec() == 8);
        }
        8
    }

    open spec fn write_spec(&self, before: SerializerView, after: SerializerView, r: Result<(), SerializeError>) -> bool {
        (after == before.append(le_bytes(*self as nat, 8)))
            && (r is Ok)
    }

    fn write(&self, ser: &mut Bin1Serializer) -> (r: Result<(), SerializeError>)
        ensures
            final(ser)@ == old(ser)@.append(le_bytes(*self as nat, 8)),
            r is Ok,
    {
        proof {
            lemma_append_wf(old(ser)@, le_bytes(*self as nat, 8));
        }
        ser.write_le(*self as u64, 8);
        Ok(())
    }

    open spec fn resolve_spec(&self, before: SerializerView, after: SerializerView, r: Result<(), SerializeError>) -> bool {
        no_pointees(before, after, r)
    }

    /// There is nothing to resolve: the value has no pointers.
    fn resolve(&self, ser: &mut Bin1Serializer) -> (r: Result<(), SerializeError>) {
        proof {
            lemma_extended_by_refl(ser@);
        }
        Ok(())
    }
}

impl Bin1Deserialize for u64 {
    const SIZE: usize = 8;

    open spec fn read_spec(before: DeserializerView, after: DeserializerView, r: Result<Self, DeserializeError>) -> bool {
        &&& (after == before.after_read(8))
        &&& (r is Ok <==> before.can_read(8))
        &&& (r matches Ok(v) ==> v as nat == le_value(before.bytes_at_cursor(8)))
        &&& (r is Err ==> r matches Err(DeserializeError::Io(IoError::UnexpectedEof)))
    }

    fn read(de: &mut Bin1Deserializer) -> (r: Result<Self, DeserializeError>)
        ensures
            final(de)@ == old(de)@.after_read(8),
            r is Ok <==> old(de)@.can_read(8),
            r matches Ok(v) ==> v as nat == le_value(old(de)@.bytes_at_cursor(8)),
            r is Err ==> r matches Err(DeserializeError::Io(IoError::UnexpectedEof)),
    {
        de.read_u64()
    }
}

impl Aligned for i8 {
    const ALIGNMENT: usize = 1;

    proof fn alignment_is_positive()
        ensures
            Self::ALIGNMENT == 1,
    {
    }
}

/// A `i8` is written as its 1 little-endian bytes.
impl Bin1Serialize for i8 {
    open spec fn alignment_spec(&self) -> usize {
        1
    }

    fn alignment(&self) -> (r: usize)
        ensures
            r == 1,
    {
        proof {
            assert(self.alignment_spec() == 1);
        }
        1
    }

    open spec fn write_spec(&self, before: SerializerView, after: SerializerView, r: Result<(), SerializeError>) -> bool {
        (after == before.append(le_bytes((*self as u8) as nat, 1)))
            && (r is Ok)
    }

    fn write(&self, ser: &mut Bin1Serializer) -> (r: Result<(), SerializeError>)
        ensures
            final(ser)@ == old(ser)@.append(le_bytes((*self as u8) as nat, 1)),
            r is Ok,
    {
        proof {
            lemma_append_wf(old(ser)@, le_bytes((*self as u8) as nat, 1));
        }
        ser.write_le((*self as u8) as u64, 1);
        Ok(())
    }

    open spec fn resolve_spec(&self, before: SerializerView, after: SerializerView, r: Result<(), SerializeError>) -> bool {
        no_pointees(before, after, r)
    }

    /// There is nothing to resolve: the value has no pointers.
    fn resolve(&self, ser: &mut Bin1Serializer) -> (r: Result<(), SerializeError>) {
        proof {
            lemma_extended_by_refl(ser@);
        }
        Ok(())
    }
}

impl Bin1Deserialize for i8 {
    const SIZE: usize = 1;

    open spec fn read_spec(before: DeserializerView, after: DeserializerView, r: Result<Self, DeserializeError>) -> bool {
        &&& (after == before.after_read(1))
        &&& (r is Ok <==> before.can_read(1))
        &&& (r matches Ok(v) ==> v == le_value(before.bytes_at_cursor(1)) as i8)
        &&& (r is Err ==> r matches Err(DeserializeError::Io(IoError::UnexpectedEof)))
    }

    fn read(de: &mut Bin1Deserializer) -> (r: Result<Self, DeserializeError>)
        ensures
            final(de)@ == old(de)@.after_read(1),
            r is Ok <==> old(de)@.can_read(1),
            r matches Ok(v) ==> v == le_value(old(de)@.bytes_at_cursor(1)) as i8,
            r is Err ==> r matches Err(DeserializeError::Io(IoError::UnexpectedEof)),
    {
        de.read_i8()
    }
}

impl Aligned for i16 {
    const ALIGNMENT: usize = 2;

    proof fn alignment_is_positive()
        ensures
            Self::ALIGNMENT == 2,
    {
    }
}

/// A `i16` is written as its 2 little-endian bytes.
impl Bin1Serialize for i16 {
    open spec fn alignment_spec(&self) -> usize {
        2
    }

    fn alignment(&self) -> (r: usize)
        ensures
            r == 2,
    {
        proof {
            assert(self.alignment_spec() == 2);
        }
        2
    }

    open spec fn write_spec(&self, before: SerializerView, after: SerializerView, r: Result<(), SerializeError>) -> bool {
        (after == before.append(le_bytes((*self as u16) as nat, 2)))
            && (r is Ok)
    }

    fn write(&self, ser: &mut Bin1Serializer) -> (r: Result<(), SerializeError>)
        ensures
            final(ser)@ == old(ser)@.append(le_bytes((*self as u16) as nat, 2)),
            r is Ok,
    {
        proof {
            lemma_append_wf(old(ser)@, le_bytes((*self as u16) as nat, 2));
        }
        ser.write_le((*self as u16) as u64, 2);
        Ok(())
    }

    open spec fn resolve_spec(&self, before: SerializerView, after: SerializerView, r: Result<(), SerializeError>) -> bool {
        no_pointees(before, after, r)
    }

    /// There is nothing to resolve: the value has no pointers.
    fn resolve(&self, ser: &mut Bin1Serializer) -> (r: Result<(), SerializeError>) {
        proof {
            lemma_extended_by_refl(ser@);
        }
        Ok(())
    }
}

impl Bin1Deserialize for i16 {
    const SIZE: usize = 2;

    open spec fn read_spec(before: DeserializerView, after: DeserializerView, r: Result<Self, DeserializeError>) -> bool {
        &&& (after == before.after_read(2))
        &&& (r is Ok <==> before.can_read(2))
        &&& (r matches Ok(v) ==> v == le_value(before.bytes_at_cursor(2)) as i16)
        &&& (r is Err ==> r matches Err(DeserializeError::Io(IoError::UnexpectedEof)))
    }

    fn read(de: &mut Bin1Deserializer) -> (r: Result<Self, DeserializeError>)
        ensures
            final(de)@ == old(de)@.after_read(2),
            r is Ok <==> old(de)@.can_read(2),
            r matches Ok(v) ==> v == le_value(old(de)@.bytes_at_cursor(2)) as i16,
            r is Err ==> r matches Err(DeserializeError::Io(IoError::UnexpectedEof)),
    {
        de.read_i16()
    }
}

impl Aligned for i32 {
    const ALIGNMENT: usize = 4;

    proof fn alignment_is_positive()
        ensures
            Self::ALIGNMENT == 4,
    {
    }
}

/// A `i32` is written as its 4 little-endian bytes.
impl Bin1Serialize for i32 {
    open spec fn alignment_spec(&self) -> usize {
        4
    }

    fn alignment(&self) -> (r: usize)
        ensures
            r == 4,
    {
        proof {
            assert(self.alignment_spec() == 4);
        }
        4
    }

    open spec fn write_spec(&self, before: SerializerView, after: SerializerView, r: Result<(), SerializeError>) -> bool {
        (after == before.append(le_bytes((*self as u32) as nat, 4)))
            && (r is Ok)
    }

    fn write(&self, ser: &mut Bin1Serializer) -> (r: Result<(), SerializeError>)
        ensures
            final(ser)@ == old(ser)@.append(le_bytes((*self as u32) as nat, 4)),
            r is Ok,
    {
        proof {
            lemma_append_wf(old(ser)@, le_bytes((*self as u32) as nat, 4));
        }
        ser.write_le((*self as u32) as u64, 4);
        Ok(())
    }

    open spec fn resolve_spec(&self, before: SerializerView, after: SerializerView, r: Result<(), SerializeError>) -> bool {
        no_pointees(before, after, r)
    }

    /// There is nothing to resolve: the value has no pointers.
    fn resolve(&self, ser: &mut Bin1Serializer) -> (r: Result<(), SerializeError>) {
        proof {
            lemma_extended_by_refl(ser@);
        }
        Ok(())
    }
}

impl Bin1Deserialize for i32 {
    const SIZE: usize = 4;

    open spec fn read_spec(before: DeserializerView, after: DeserializerView, r: Result<Self, DeserializeError>) -> bool {
        &&& (after == before.after_read(4))
        &&& (r is Ok <==> before.can_read(4))
        &&& (r matches Ok(v) ==> v == le_value(before.bytes_at_cursor(4)) as i32)
        &&& (r is Err ==> r matches Err(DeserializeError::Io(IoError::UnexpectedEof)))
    }

    fn read(de: &mut Bin1Deserializer) -> (r: Result<Self, DeserializeError>)
        ensures
            final(de)@ == old(de)@.after_read(4),
            r is Ok <==> old(de)@.can_read(4),
            r matches Ok(v) ==> v == le_value(old(de)@.bytes_at_cursor(4)) as i32,
            r is Err ==> r matches Err(DeserializeError::Io(IoError::UnexpectedEof)),
    {
        de.read_i32()
    }
}

impl Aligned for i64 {
    const ALIGNMENT: usize = 8;

    proof fn alignment_is_positive()
        ensures
            Self::ALIGNMENT == 8,
    {
    }
}

/// A `i64` is written as its 8 little-endian bytes.
impl Bin1Serialize for i64 {
    open spec fn alignment_spec(&self) -> usize {
        8
    }

    fn alignment(&self) -> (r: usize)
        ensures
            r == 8,
    {
        proof {
            assert(self.alignment_spec() == 8);
        }
        8
    }

    open spec fn write_spec(&self, before: SerializerView, after: SerializerView, r: Result<(), SerializeError>) -> bool {
        (after == before.append(le_bytes((*self as u64) as nat, 8)))
            && (r is Ok)
    }

    fn write(&self, ser: &mut Bin1Serializer) -> (r: Result<(), SerializeError>)
        ensures
            final(ser)@ == old(ser)@.append(le_bytes((*self as u64) as nat, 8)),
            r is Ok,
    {
        proof {
            lemma_append_wf(old(ser)@, le_bytes((*self as u64) as nat, 8));
        }
        ser.write_le((*self as u64) as u64, 8);
        Ok(())
    }

    open spec fn resolve_spec(&self, before: SerializerView, after: SerializerView, r: Result<(), SerializeError>) -> bool {
        no_pointees(before, after, r)
    }

    /// There is nothing to resolve: the value has no pointers.
    fn resolve(&self, ser: &mut Bin1Serializer) -> (r: Result<(), SerializeError>) {
        proof {
            lemma_extended_by_refl(ser@);
        }
        Ok(())
    }
}

impl Bin1Deserialize for i64 {
    const SIZE: usize = 8;

    open spec fn read_spec(before: DeserializerView, after: DeserializerView, r: Result<Self, DeserializeError>) -> bool {
        &&& (after == before.after_read(8))
        &&& (r is Ok <==> before.can_read(8))
        &&& (r matches Ok(v) ==> v == le_value(before.bytes_at_cursor(8)) as i64)
        &&& (r is Err ==> r matches Err(DeserializeError::Io(IoError::UnexpectedEof)))
    }

    fn read(de: &mut Bin1Deserializer) -> (r: Result<Self, DeserializeError>)
        ensures
            final(de)@ == old(de)@.after_read(8),
            r is Ok <==> old(de)@.can_read(8),
            r matches Ok(v) ==> v == le_value(old(de)@.bytes_at_cursor(8)) as i64,
            r is Err ==> r matches Err(DeserializeError::Io(IoError::UnexpectedEof)),
    {
        de.read_i64()
    }
}

impl Aligned for bool {
    const ALIGNMENT: usize = 1;

    proof fn alignment_is_positive()
        ensures
            Self::ALIGNMENT == 1,
    {
    }
}

/// A `bool` is written as one byte, 1 for true and 0 for false.
impl Bin1Serialize for bool {
    open spec fn alignment_spec(&self) -> usize {
        1
    }

    fn alignment(&self) -> (r: usize)
        ensures
            r == 1,
    {
        proof {
            assert(self.alignment_spec() == 1);
        }
        1
    }

    open spec fn write_spec(&self, before: SerializerView, after: SerializerView, r: Result<(), SerializeError>) -> bool {
        (after == before.append(le_bytes(if *self { 1 } else { 0 }, 1)))
            && (r is Ok)
    }

    fn write(&self, ser: &mut Bin1Serializer) -> (r: Result<(), SerializeError>)
        ensures
            final(ser)@ == old(ser)@.append(le_bytes(if *self { 1 } else { 0 }, 1)),
            r is Ok,
    {
        proof {
            lemma_append_wf(old(ser)@, le_bytes(if *self { 1 } else { 0 }, 1));
        }
        ser.write_le(if *self { 1 } else { 0 }, 1);
        Ok(())
    }

    open spec fn resolve_spec(&self, before: SerializerView, after: SerializerView, r: Result<(), SerializeError>) -> bool {
        no_pointees(before, after, r)
    }

    /// There is nothing to resolve: the value has no pointers.
    fn resolve(&self, ser: &mut Bin1Serializer) -> (r: Result<(), SerializeError>) {
        proof {
            lemma_extended_by_refl(ser@);
        }
        Ok(())
    }
}

/// A byte is read as a `bool`: any value but 0 is true.
impl Bin1Deserialize for bool {
    const SIZE: usize = 1;

    open spec fn read_spec(before: DeserializerView, after: DeserializerView, r: Result<Self, DeserializeError>) -> bool {
        &&& (after == before.after_read(1))
        &&& (r is Ok <==> before.can_read(1))
        &&& (r matches Ok(v) ==> v == (le_value(before.bytes_at_cursor(1)) != 0))
        &&& (r is Err ==> r matches Err(DeserializeError::Io(IoError::UnexpectedEof)))
    }

    fn read(de: &mut Bin1Deserializer) -> (r: Result<Self, DeserializeError>)
        ensures
            final(de)@ == old(de)@.after_read(1),
            r is Ok <==> old(de)@.can_read(1),
            r matches Ok(v) ==> v == (le_value(old(de)@.bytes_at_cursor(1)) != 0),
            r is Err ==> r matches Err(DeserializeError::Io(IoError::UnexpectedEof)),
    {
        let v = de.read_u8()?;
        Ok(v != 0)
    }
}

impl Aligned for () {
    const ALIGNMENT: usize = 1;

    proof fn alignment_is_positive()
        ensures
            Self::ALIGNMENT == 1,
    {
    }
}

/// The unit value takes no bytes.
impl Bin1Serialize for () {
    open spec fn alignment_spec(&self) -> usize {
        1
    }

    fn alignment(&self) -> (r: usize)
        ensures
            r == 1,
    {
        proof {
            assert(self.alignment_spec() == 1);
        }
        1
    }

    open spec fn write_spec(&self, before: SerializerView, after: SerializerView, r: Result<(), SerializeError>) -> bool {
        (after == before)
            && (r is Ok)
    }

    fn write(&self, ser: &mut Bin1Serializer) -> (r: Result<(), SerializeError>)
        ensures
            final(ser)@ == old(ser)@,
            r is Ok,
    {
        proof {
            crate::ser::lemma_extended_by_refl(ser@);
        }
        Ok(())
    }

    open spec fn resolve_spec(&self, before: SerializerView, after: SerializerView, r: Result<(), SerializeError>) -> bool {
        no_pointees(before, after, r)
    }

    /// There is nothing to resolve: the value has no pointers.
    fn resolve(&self, ser: &mut Bin1Serializer) -> (r: Result<(), SerializeError>) {
        proof {
            lemma_extended_by_refl(ser@);
        }
        Ok(())
    }
}

impl Bin1Deserialize for () {
    const SIZE: usize = 0;

    open spec fn read_spec(before: DeserializerView, after: DeserializerView, r: Result<Self, DeserializeError>) -> bool {
        &&& (after == before)
        &&& (r is Ok)
    }

    fn read(de: &mut Bin1Deserializer) -> (r: Result<Self, DeserializeError>)
        ensures
            final(de)@ == old(de)@,
            r is Ok,
    {
        Ok(())
    }
}

impl<T> Aligned for Arc<T> {
    const ALIGNMENT: usize = 8;

    proof fn alignment_is_positive() {
    }
}

/// A shared value is read through a pointer to it.
impl<T: Bin1Deserialize> Bin1Deserialize for Arc<T> {
    const SIZE: usize = 8;

    open spec fn read_spec(before: DeserializerView, after: DeserializerView, r: Result<Self, DeserializeError>) -> bool {
        &&& (r is Ok ==> before.align_ok(8) && before.after_align(8).can_read(8)
                && after.pos == before.after_align(8).after_read(8).pos)
        &&& (!before.align_ok(8) ==> (r matches Err(DeserializeError::Io(IoError::InvalidSeek))))
        &&& (before.align_ok(8) && !before.after_align(8).can_read(8) ==> (r matches Err(
                DeserializeError::Io(IoError::UnexpectedEof),
            )))
        &&& (before.align_ok(8) && before.after_align(8).can_read(8) ==> exists|
                mid: DeserializerView,
                r1: Result<T, DeserializeError>,
            |
                #![trigger T::read_spec(before.pointee_state(), mid, r1)]
                T::read_spec(before.pointee_state(), mid, r1) && (r1 matches Err(e) ==> r
                    == Err::<Arc<T>, DeserializeError>(e)) && (r1 matches Ok(v) ==> r matches Ok(a)
                    && *a == v && after == mid.at(before.after_align(8).after_read(8).pos)))
    }

    /// Reads the value where the pointer at the cursor points.
    fn read(de: &mut Bin1Deserializer) -> (r: Result<Self, DeserializeError>)
        ensures
            Self::read_spec(old(de)@, final(de)@, r),
    {
        de.read_pointer::<T>()
    }
}

impl<T> Aligned for Option<Arc<T>> {
    const ALIGNMENT: usize = 8;

    proof fn alignment_is_positive() {
    }
}

/// An optional shared value is read through a pointer to it, where the null
/// pointer stands for no value.
impl<T: Bin1Deserialize> Bin1Deserialize for Option<Arc<T>> {
    const SIZE: usize = 8;

    open spec fn read_spec(before: DeserializerView, after: DeserializerView, r: Result<Self, DeserializeError>) -> bool {
        &&& (before.can_read(8) && le_value(before.bytes_at_cursor(8)) == NULL_POINTER_ID
                ==> (r matches Ok(v) && v is None && after == before.after_read(8)))
        &&& (!before.can_read(8) ==> (r matches Err(DeserializeError::Io(IoError::UnexpectedEof))
                && after == before.after_read(8)))
        &&& (r matches Ok(Some(_)) ==> before.can_read(8) && le_value(
                before.bytes_at_cursor(8),
            ) != NULL_POINTER_ID)
    }

    fn read(de: &mut Bin1Deserializer) -> (r: Result<Self, DeserializeError>)
        ensures
            old(de)@.can_read(8) && le_value(old(de)@.bytes_at_cursor(8)) == NULL_POINTER_ID
                ==> (r matches Ok(v) && v is None && final(de)@ == old(de)@.after_read(8)),
            !old(de)@.can_read(8) ==> (r matches Err(DeserializeError::Io(IoError::UnexpectedEof))
                && final(de)@ == old(de)@.after_read(8)),
            r matches Ok(Some(_)) ==> old(de)@.can_read(8) && le_value(
                old(de)@.bytes_at_cursor(8),
            ) != NULL_POINTER_ID,
    {
        let ptr = de.read_u64()?;
        if ptr == NULL_POINTER_ID {
            Ok(None)
        } else {
            de.seek_relative(-8)?;
            let value = de.read_pointer::<T>()?;
            Ok(Some(value))
        }
    }
}

impl<T: Aligned, U: Aligned> Aligned for (T, U) {
    const ALIGNMENT: usize = T::ALIGNMENT * ((T::ALIGNMENT >= U::ALIGNMENT) as usize) + U::ALIGNMENT * ((T::ALIGNMENT < U::ALIGNMENT) as usize);

    proof fn alignment_is_positive() {
        T::alignment_is_positive();
        U::alignment_is_positive();
    }
}

/// A pair is read as its first value, then its second aligned to the second's
/// alignment, then padding to the pair's alignment.
impl<T: Bin1Deserialize, U: Bin1Deserialize> Bin1Deserialize for (T, U) {
    const SIZE: usize = T::SIZE + ((Self::ALIGNMENT - ((T::SIZE + U::SIZE) % Self::ALIGNMENT)) % Self::ALIGNMENT) + U::SIZE;

    open spec fn read_spec(before: DeserializerView, after: DeserializerView, r: Result<Self, DeserializeError>) -> bool {
        &&& (r is Ok ==> exists|s1: DeserializerView, s2: DeserializerView|
                #![trigger s1.after_align(U::ALIGNMENT), s2.after_align(<(T, U) as Aligned>::ALIGNMENT)]
                T::read_spec(before, s1, Ok(r->Ok_0.0)) && s1.align_ok(U::ALIGNMENT) && U::read_spec(
                    s1.after_align(U::ALIGNMENT),
                    s2,
                    Ok(r->Ok_0.1),
                ) && s2.align_ok(<(T, U) as Aligned>::ALIGNMENT) && after == s2.after_align(
                    <(T, U) as Aligned>::ALIGNMENT,
                ))
        &&& (r is Err ==> exists|s1: DeserializerView, r1: Result<T, DeserializeError>|
                #![trigger T::read_spec(before, s1, r1)]
                T::read_spec(before, s1, r1) && (r1 is Err || !s1.align_ok(U::ALIGNMENT) || exists|
                    s2: DeserializerView,
                    r2: Result<U, DeserializeError>,
                |
                    #![trigger U::read_spec(s1.after_align(U::ALIGNMENT), s2, r2)]
                    U::read_spec(s1.after_align(U::ALIGNMENT), s2, r2) && (r2 is Err || !s2.align_ok(
                        <(T, U) as Aligned>::ALIGNMENT,
                    ))))
    }

    /// Reads the first value, aligns to the second's alignment, reads the second,
    /// and aligns to the pair's alignment.
    fn read(de: &mut Bin1Deserializer) -> (r: Result<Self, DeserializeError>) {
        proof {
            U::alignment_is_positive();
            <(T, U) as Aligned>::alignment_is_positive();
        }
        let ghost s0 = de@;
        let r1 = T::read(de);
        let ghost s1 = de@;
        let first = match r1 {
            Ok(v) => v,
            Err(e) => {
                proof {
                    assert(T::read_spec(s0, s1, r1));
                }
                return Err(e);
            },
        };
        match de.align_to(U::ALIGNMENT) {
            Ok(()) => {},
            Err(e) => {
                proof {
                    assert(T::read_spec(s0, s1, r1) && !s1.align_ok(U::ALIGNMENT));
                }
                return Err(e);
            },
        }
        let ghost sa = de@;
        let r2 = U::read(de);
        let ghost s2 = de@;
        let second = match r2 {
            Ok(v) => v,
            Err(e) => {
                proof {
                    assert(T::read_spec(s0, s1, r1));
                    assert(U::read_spec(s1.after_align(U::ALIGNMENT), s2, r2));
                }
                return Err(e);
            },
        };
        match de.align_to(<(T, U) as Aligned>::ALIGNMENT) {
            Ok(()) => {},
            Err(e) => {
                proof {
                    assert(T::read_spec(s0, s1, r1));
                    assert(U::read_spec(s1.after_align(U::ALIGNMENT), s2, r2));
                    assert(!s2.align_ok(<(T, U) as Aligned>::ALIGNMENT));
                }
                return Err(e);
            },
        }
        proof {
            assert(T::read_spec(s0, s1, Ok(first)));
            assert(U::read_spec(s1.after_align(U::ALIGNMENT), s2, Ok(second)));
            assert(de@ == s2.after_align(<(T, U) as Aligned>::ALIGNMENT));
        }
        Ok((first, second))
    }
}

/// Values of `u8` read back, and each write adds bytes.
pub proof fn lemma_u8_values_read_back()
    ensures
        values_read_back::<u8>(),
        writes_determined::<u8>(),
        values_end_aligned::<u8>(),
        values_advance::<u8>(),
{
    let bytes = |x: u8| le_bytes(x as nat, 1);
    <u8 as Aligned>::alignment_is_positive();
    lemma_pow256_values();
    assert forall|x: u8| (#[trigger] bytes(x)).len() == 1 by {
        lemma_le_roundtrip(x as nat, 1);
    }
    assert forall|x: u8, b: SerializerView, a: SerializerView, r: Result<(), SerializeError>|
        #[trigger] x.write_spec(b, a, r) && b.wf() && a.buffer.len() <= usize::MAX implies a.wf()
            && b.extended_by(a) && b.append(bytes(x)).extended_by(a) by {
        lemma_append_wf(b, bytes(x));
        lemma_extended_by_refl(a);
    }
    assert forall|x: u8, b: DeserializerView, a: DeserializerView, r: Result<u8, DeserializeError>|
        #![trigger <u8 as Bin1Deserialize>::read_spec(b, a, r), bytes(x)]
        <u8 as Bin1Deserialize>::read_spec(b, a, r) && b.can_read(1) && b.bytes_at_cursor(1) == bytes(x) implies r
            == Ok::<u8, DeserializeError>(x) && a == b.after_read(1) by {
        lemma_le_roundtrip(x as nat, 1);
    }
    lemma_fixed_values_read_back::<u8>(bytes, 1, 1);
}

/// Values of `u16` read back, and each write adds bytes.
pub proof fn lemma_u16_values_read_back()
    ensures
        values_read_back::<u16>(),
        writes_determined::<u16>(),
        values_end_aligned::<u16>(),
        values_advance::<u16>(),
{
    let bytes = |x: u16| le_bytes(x as nat, 2);
    <u16 as Aligned>::alignment_is_positive();
    lemma_pow256_values();
    assert forall|x: u16| (#[trigger] bytes(x)).len() == 2 by {
        lemma_le_roundtrip(x as nat, 2);
    }
    assert forall|x: u16, b: SerializerView, a: SerializerView, r: Result<(), SerializeError>|
        #[trigger] x.write_spec(b, a, r) && b.wf() && a.buffer.len() <= usize::MAX implies a.wf()
            && b.extended_by(a) && b.append(bytes(x)).extended_by(a) by {
        lemma_append_wf(b, bytes(x));
        lemma_extended_by_refl(a);
    }
    assert forall|x: u16, b: DeserializerView, a: DeserializerView, r: Result<u16, DeserializeError>|
        #![trigger <u16 as Bin1Deserialize>::read_spec(b, a, r), bytes(x)]
        <u16 as Bin1Deserialize>::read_spec(b, a, r) && b.can_read(2) && b.bytes_at_cursor(2) == bytes(x) implies r
            == Ok::<u16, DeserializeError>(x) && a == b.after_read(2) by {
        lemma_le_roundtrip(x as nat, 2);
    }
    lemma_fixed_values_read_back::<u16>(bytes, 2, 2);
}

/// Values of `u32` read back, and each write adds bytes.
pub proof fn lemma_u32_values_read_back()
    ensures
        values_read_back::<u32>(),
        writes_determined::<u32>(),
        values_end_aligned::<u32>(),
        values_advance::<u32>(),
{
    let bytes = |x: u32| le_bytes(x as nat, 4);
    <u32 as Aligned>::alignment_is_positive();
    lemma_pow256_values();
    assert forall|x: u32| (#[trigger] bytes(x)).len() == 4 by {
        lemma_le_roundtrip(x as nat, 4);
    }
    assert forall|x: u32, b: SerializerView, a: SerializerView, r: Result<(), SerializeError>|
        #[trigger] x.write_spec(b, a, r) && b.wf() && a.buffer.len() <= usize::MAX implies a.wf()
            && b.extended_by(a) && b.append(bytes(x)).extended_by(a) by {
        lemma_append_wf(b, bytes(x));
        lemma_extended_by_refl(a);
    }
    assert forall|x: u32, b: DeserializerView, a: DeserializerView, r: Result<u32, DeserializeError>|
        #![trigger <u32 as Bin1Deserialize>::read_spec(b, a, r), bytes(x)]
        <u32 as Bin1Deserialize>::read_spec(b, a, r) && b.can_read(4) && b.bytes_at_cursor(4) == bytes(x) implies r
            == Ok::<u32, DeserializeError>(x) && a == b.after_read(4) by {
        lemma_le_roundtrip(x as nat, 4);
    }
    lemma_fixed_values_read_back::<u32>(bytes, 4, 4);
}

/// Values of `u64` read back, and each write adds bytes.
pub proof fn lemma_u64_values_read_back()
    ensures
        values_read_back::<u64>(),
        writes_determined::<u64>(),
        values_end_aligned::<u64>(),
        values_advance::<u64>(),
{
    let bytes = |x: u64| le_bytes(x as nat, 8);
    <u64 as Aligned>::alignment_is_positive();
    lemma_pow256_values();
    assert forall|x: u64| (#[trigger] bytes(x)).len() == 8 by {
        lemma_le_roundtrip(x as nat, 8);
    }
    assert forall|x: u64, b: SerializerView, a: SerializerView, r: Result<(), SerializeError>|
        #[trigger] x.write_spec(b, a, r) && b.wf() && a.buffer.len() <= usize::MAX implies a.wf()
            && b.extended_by(a) && b.append(bytes(x)).extended_by(a) by {
        lemma_append_wf(b, bytes(x));
        lemma_extended_by_refl(a);
    }
    assert forall|x: u64, b: DeserializerView, a: DeserializerView, r: Result<u64, DeserializeError>|
        #![trigger <u64 as Bin1Deserialize>::read_spec(b, a, r), bytes(x)]
        <u64 as Bin1Deserialize>::read_spec(b, a, r) && b.can_read(8) && b.bytes_at_cursor(8) == bytes(x) implies r
            == Ok::<u64, DeserializeError>(x) && a == b.after_read(8) by {
        lemma_le_roundtrip(x as nat, 8);
    }
    lemma_fixed_values_read_back::<u64>(bytes, 8, 8);
}

/// Values of `i8` read back, and each write adds bytes.
pub proof fn lemma_i8_values_read_back()
    ensures
        values_read_back::<i8>(),
        writes_determined::<i8>(),
        values_end_aligned::<i8>(),
        values_advance::<i8>(),
{
    let bytes = |x: i8| le_bytes((x as u8) as nat, 1);
    <i8 as Aligned>::alignment_is_positive();
    lemma_pow256_values();
    assert forall|x: i8| (#[trigger] bytes(x)).len() == 1 by {
        lemma_le_roundtrip((x as u8) as nat, 1);
    }
    assert forall|x: i8, b: SerializerView, a: SerializerView, r: Result<(), SerializeError>|
        #[trigger] x.write_spec(b, a, r) && b.wf() && a.buffer.len() <= usize::MAX implies a.wf()
            && b.extended_by(a) && b.append(bytes(x)).extended_by(a) by {
        lemma_append_wf(b, bytes(x));
        lemma_extended_by_refl(a);
    }
    assert forall|x: i8, b: DeserializerView, a: DeserializerView, r: Result<i8, DeserializeError>|
        #![trigger <i8 as Bin1Deserialize>::read_spec(b, a, r), bytes(x)]
        <i8 as Bin1Deserialize>::read_spec(b, a, r) && b.can_read(1) && b.bytes_at_cursor(1) == bytes(x) implies r
            == Ok::<i8, DeserializeError>(x) && a == b.after_read(1) by {
        lemma_le_roundtrip((x as u8) as nat, 1);
        assert(((x as u8) as i8) == x) by (bit_vector);
    }
    lemma_fixed_values_read_back::<i8>(bytes, 1, 1);
}

/// Values of `i16` read back, and each write adds bytes.
pub proof fn lemma_i16_values_read_back()
    ensures
        values_read_back::<i16>(),
        writes_determined::<i16>(),
        values_end_aligned::<i16>(),
        values_advance::<i16>(),
{
    let bytes = |x: i16| le_bytes((x as u16) as nat, 2);
    <i16 as Aligned>::alignment_is_positive();
    lemma_pow256_values();
    assert forall|x: i16| (#[trigger] bytes(x)).len() == 2 by {
        lemma_le_roundtrip((x as u16) as nat, 2);
    }
    assert forall|x: i16, b: SerializerView, a: SerializerView, r: Result<(), SerializeError>|
        #[trigger] x.write_spec(b, a, r) && b.wf() && a.buffer.len() <= usize::MAX implies a.wf()
            && b.extended_by(a) && b.append(bytes(x)).extended_by(a) by {
        lemma_append_wf(b, bytes(x));
        lemma_extended_by_refl(a);
    }
    assert forall|x: i16, b: DeserializerView, a: DeserializerView, r: Result<i16, DeserializeError>|
        #![trigger <i16 as Bin1Deserialize>::read_spec(b, a, r), bytes(x)]
        <i16 as Bin1Deserialize>::read_spec(b, a, r) && b.can_read(2) && b.bytes_at_cursor(2) == bytes(x) implies r
            == Ok::<i16, DeserializeError>(x) && a == b.after_read(2) by {
        lemma_le_roundtrip((x as u16) as nat, 2);
        assert(((x as u16) as i16) == x) by (bit_vector);
    }
    lemma_fixed_values_read_back::<i16>(bytes, 2, 2);
}

/// Values of `i32` read back, and each write adds bytes.
pub proof fn lemma_i32_values_read_back()
    ensures
        values_read_back::<i32>(),
        writes_determined::<i32>(),
        values_end_aligned::<i32>(),
        values_advance::<i32>(),
{
    let bytes = |x: i32| le_bytes((x as u32) as nat, 4);
    <i32 as Aligned>::alignment_is_positive();
    lemma_pow256_values();
    assert forall|x: i32| (#[trigger] bytes(x)).len() == 4 by {
        lemma_le_roundtrip((x as u32) as nat, 4);
    }
    assert forall|x: i32, b: SerializerView, a: SerializerView, r: Result<(), SerializeError>|
        #[trigger] x.write_spec(b, a, r) && b.wf() && a.buffer.len() <= usize::MAX implies a.wf()
            && b.extended_by(a) && b.append(bytes(x)).extended_by(a) by {
        lemma_append_wf(b, bytes(x));
        lemma_extended_by_refl(a);
    }
    assert forall|x: i32, b: DeserializerView, a: DeserializerView, r: Result<i32, DeserializeError>|
        #![trigger <i32 as Bin1Deserialize>::read_spec(b, a, r), bytes(x)]
        <i32 as Bin1Deserialize>::read_spec(b, a, r) && b.can_read(4) && b.bytes_at_cursor(4) == bytes(x) implies r
            == Ok::<i32, DeserializeError>(x) && a == b.after_read(4) by {
        lemma_le_roundtrip((x as u32) as nat, 4);
        assert(((x as u32) as i32) == x) by (bit_vector);
    }
    lemma_fixed_values_read_back::<i32>(bytes, 4, 4);
}

/// Values of `i64` read back, and each write adds bytes.
pub proof fn lemma_i64_values_read_back()
    ensures
        values_read_back::<i64>(),
        writes_determined::<i64>(),
        values_end_aligned::<i64>(),
        values_advance::<i64>(),
{
    let bytes = |x: i64| le_bytes((x as u64) as nat, 8);
    <i64 as Aligned>::alignment_is_positive();
    lemma_pow256_values();
    assert forall|x: i64| (#[trigger] bytes(x)).len() == 8 by {
        lemma_le_roundtrip((x as u64) as nat, 8);
    }
    assert forall|x: i64, b: SerializerView, a: SerializerView, r: Result<(), SerializeError>|
        #[trigger] x.write_spec(b, a, r) && b.wf() && a.buffer.len() <= usize::MAX implies a.wf()
            && b.extended_by(a) && b.append(bytes(x)).extended_by(a) by {
        lemma_append_wf(b, bytes(x));
        lemma_extended_by_refl(a);
    }
    assert forall|x: i64, b: DeserializerView, a: DeserializerView, r: Result<i64, DeserializeError>|
        #![trigger <i64 as Bin1Deserialize>::read_spec(b, a, r), bytes(x)]
        <i64 as Bin1Deserialize>::read_spec(b, a, r) && b.can_read(8) && b.bytes_at_cursor(8) == bytes(x) implies r
            == Ok::<i64, DeserializeError>(x) && a == b.after_read(8) by {
        lemma_le_roundtrip((x as u64) as nat, 8);
        assert(((x as u64) as i64) == x) by (bit_vector);
    }
    lemma_fixed_values_read_back::<i64>(bytes, 8, 8);
}

/// Values of `bool` read back, and each write adds bytes.
pub proof fn lemma_bool_values_read_back()
    ensures
        values_read_back::<bool>(),
        writes_determined::<bool>(),
        values_end_aligned::<bool>(),
        values_advance::<bool>(),
{
    let bytes = |x: bool| le_bytes(if x { 1 } else { 0 }, 1);
    <bool as Aligned>::alignment_is_positive();
    lemma_pow256_values();
    assert forall|x: bool| (#[trigger] bytes(x)).len() == 1 by {
        lemma_le_roundtrip(if x { 1 } else { 0 }, 1);
    }
    assert forall|x: bool, b: SerializerView, a: SerializerView, r: Result<(), SerializeError>|
        #[trigger] x.write_spec(b, a, r) && b.wf() && a.buffer.len() <= usize::MAX implies a.wf()
            && b.extended_by(a) && b.append(bytes(x)).extended_by(a) by {
        lemma_append_wf(b, bytes(x));
        lemma_extended_by_refl(a);
    }
    assert forall|x: bool, b: DeserializerView, a: DeserializerView, r: Result<bool, DeserializeError>|
        #![trigger <bool as Bin1Deserialize>::read_spec(b, a, r), bytes(x)]
        <bool as Bin1Deserialize>::read_spec(b, a, r) && b.can_read(1) && b.bytes_at_cursor(1) == bytes(x) implies r
            == Ok::<bool, DeserializeError>(x) && a == b.after_read(1) by {
        lemma_le_roundtrip(if x { 1 } else { 0 }, 1);
    }
    lemma_fixed_values_read_back::<bool>(bytes, 1, 1);
}

/// The unit value reads back.
pub proof fn lemma_unit_values_read_back()
    ensures
        values_read_back::<()>(),
        writes_determined::<()>(),
        values_end_aligned::<()>(),
{
    let bytes = |x: ()| Seq::<u8>::empty();
    <() as Aligned>::alignment_is_positive();
    lemma_pow256_values();
    assert forall|x: ()| (#[trigger] bytes(x)).len() == 0 by {
    }
    assert forall|x: (), b: SerializerView, a: SerializerView, r: Result<(), SerializeError>|
        #[trigger] x.write_spec(b, a, r) && b.wf() && a.buffer.len() <= usize::MAX implies a.wf()
            && b.extended_by(a) && b.append(bytes(x)).extended_by(a) by {
        assert(b.append(bytes(x)).buffer =~= b.buffer);
        lemma_extended_by_refl(a);
    }
    assert forall|x: (), b: DeserializerView, a: DeserializerView, r: Result<(), DeserializeError>|
        #![trigger <() as Bin1Deserialize>::read_spec(b, a, r), bytes(x)]
        <() as Bin1Deserialize>::read_spec(b, a, r) && b.can_read(0) && b.bytes_at_cursor(0) == bytes(x) implies r
            == Ok::<(), DeserializeError>(x) && a == b.after_read(0) by {
        assert(b.after_read(0) == b);
        let v: () = r->Ok_0;
        assert(v == x);
    }
    lemma_fixed_values_read_back::<()>(bytes, 0, 1);
}

} // verus!
