//! Type IDs: the names under which values are stored in variants, and how the
//! names of array and pair types are built from their element types' names.
use vstd::prelude::*;
use vstd::utf8::{encode_utf8, valid_utf8};
use vstd::string::StringSliceAdditionalSpecFns;
use crate::de::{str_from_utf8, Bin1Deserialize, Bin1Deserializer, DeserializeError, TypeRead, DeserializerView};
use crate::typegen::text::{chars_of, is_text};
use crate::ser::{lemma_extended_by_refl, no_pointees, Aligned, Bin1Serialize, Bin1Serializer, SerializeError, SerializerView};

verus! {

/// What reading a variant does after its type ID: a `void` variant has no payload
/// and its pointer is skipped; any other payload is read by the deserializer
/// registered for its type ID.
pub enum VariantPayload {
    Skip,
    Read,
}

/// Decides how the payload of a variant with the type ID `type_id` is read, given
/// whether a deserializer is registered for that type ID: `void` is skipped whether
/// or not one is, and another type ID without one is `UnknownType`.
pub fn variant_payload(type_id: &str, registered: bool) -> (r: Result<VariantPayload, DeserializeError>)
    ensures
        type_id@ == "void"@ ==> r matches Ok(VariantPayload::Skip),
        type_id@ != "void"@ && registered ==> r matches Ok(VariantPayload::Read),
        type_id@ != "void"@ && !registered ==> (r matches Err(DeserializeError::UnknownType(t))
            && t@ == type_id@),
{
    let chars = chars_of(type_id);
    if is_text(chars.as_slice(), "void") {
        Ok(VariantPayload::Skip)
    } else if registered {
        Ok(VariantPayload::Read)
    } else {
        Err(DeserializeError::UnknownType(type_id.to_string()))
    }
}

/// Types with a fixed type ID.
pub trait StaticVariant {
    const TYPE_ID: &'static str;
}

impl StaticVariant for u8 {
    const TYPE_ID: &'static str = "uint8";
}

impl StaticVariant for u16 {
    const TYPE_ID: &'static str = "uint16";
}

impl StaticVariant for u32 {
    const TYPE_ID: &'static str = "uint32";
}

impl StaticVariant for u64 {
    const TYPE_ID: &'static str = "uint64";
}

impl StaticVariant for i8 {
    const TYPE_ID: &'static str = "int8";
}

impl StaticVariant for i16 {
    const TYPE_ID: &'static str = "int16";
}

impl StaticVariant for i32 {
    const TYPE_ID: &'static str = "int32";
}

impl StaticVariant for i64 {
    const TYPE_ID: &'static str = "int64";
}

impl StaticVariant for bool {
    const TYPE_ID: &'static str = "bool";
}

impl StaticVariant for () {
    const TYPE_ID: &'static str = "void";
}

impl StaticVariant for String {
    const TYPE_ID: &'static str = "ZString";
}

impl StaticVariant for crate::types::hitman_resource::ZRuntimeResourceID {
    const TYPE_ID: &'static str = "ZRuntimeResourceID";
}

impl StaticVariant for crate::types::hitman_resource::TResourcePtr {
    const TYPE_ID: &'static str = "TResourcePtr";
}

/// The size of the buffers in which type IDs are built.
pub const CONST_STR_BUF_SIZE: usize = 128;

/// The bytes of `TArray<`.
pub open spec fn array_start() -> Seq<u8> {
    seq![0x54u8, 0x41, 0x72, 0x72, 0x61, 0x79, 0x3C]
}

/// The bytes of `TPair<`.
pub open spec fn pair_start() -> Seq<u8> {
    seq![0x54u8, 0x50, 0x61, 0x69, 0x72, 0x3C]
}

/// The bytes of `,`.
pub open spec fn pair_separator() -> Seq<u8> {
    seq![0x2Cu8]
}

/// The bytes of `>`.
pub open spec fn type_end() -> Seq<u8> {
    seq![0x3Eu8]
}

/// The type ID of an array of elements with type ID `contained`.
pub open spec fn array_type_bytes(contained: Seq<u8>) -> Seq<u8> {
    array_start() + contained + type_end()
}

/// The type ID of a pair of values with type IDs `first` and `second`.
pub open spec fn pair_type_bytes(first: Seq<u8>, second: Seq<u8>) -> Seq<u8> {
    pair_start() + first + pair_separator() + second + type_end()
}

/// Whether `buf` holds `bytes` followed by zeros.
pub open spec fn holds_then_zeros(buf: Seq<u8>, bytes: Seq<u8>) -> bool {
    &&& bytes.len() <= buf.len()
    &&& buf.subrange(0, bytes.len() as int) == bytes
    &&& forall|i: int| bytes.len() <= i < buf.len() ==> buf[i] == 0
}

/// Copies `bytes` into `buf` from `pos`.
fn copy_into(buf: &mut [u8; 128], pos: usize, bytes: &[u8]) -> (end: usize)
    requires
        pos + bytes@.len() <= 128,
    ensures
        end == pos + bytes@.len(),
        final(buf)@ == old(buf)@.subrange(0, pos as int) + bytes@ + old(buf)@.subrange(
            end as int,
            128,
        ),
{
    let ghost start = buf@;
    let mut i: usize = 0;
    while i < bytes.len()
        invariant
            i <= bytes@.len(),
            pos + bytes@.len() <= 128,
            buf@.len() == 128,
            forall|k: int|
                0 <= k < 128 ==> #[trigger] buf@[k] == if pos <= k < pos + i {
                    bytes@[k - pos]
                } else {
                    start[k]
                },
        decreases bytes@.len() - i,
    {
        buf[pos + i] = bytes[i];
        i = i + 1;
    }
    assert(buf@ =~= start.subrange(0, pos as int) + bytes@ + start.subrange(
        (pos + bytes@.len()) as int,
        128,
    ));
    pos + bytes.len()
}

/// Builds `TArray<contained_ty>` in a zeroed buffer; gives the buffer and the
/// length of the type ID in it.
pub fn make_array_ty(contained_ty: &str) -> (r: ([u8; 128], usize))
    requires
        7 + contained_ty.spec_bytes().len() + 1 <= CONST_STR_BUF_SIZE,
    ensures
        r.1 == array_type_bytes(contained_ty.spec_bytes()).len(),
        holds_then_zeros(r.0@, array_type_bytes(contained_ty.spec_bytes())),
{
    let start: [u8; 7] = [0x54, 0x41, 0x72, 0x72, 0x61, 0x79, 0x3C];
    let end: [u8; 1] = [0x3E];
    let contained = contained_ty.as_bytes();
    let mut buf: [u8; 128] = vstd::array::array_fill_for_copy_types(0u8);
    let ghost zero = buf@;
    assert(start@ =~= array_start());
    assert(end@ =~= type_end());
    let pos = copy_into(&mut buf, 0, start.as_slice());
    let pos = copy_into(&mut buf, pos, contained);
    let pos = copy_into(&mut buf, pos, end.as_slice());
    proof {
        let bytes = array_type_bytes(contained_ty.spec_bytes());
        assert(buf@.subrange(0, bytes.len() as int) =~= bytes);
        assert forall|i: int| bytes.len() <= i < 128 implies buf@[i] == 0 by {
            assert(zero[i] == 0);
        }
    }
    (buf, pos)
}

/// Builds `TPair<ty_1,ty_2>` in a zeroed buffer; gives the buffer and the length
/// of the type ID in it.
pub fn make_pair_ty(ty_1: &str, ty_2: &str) -> (r: ([u8; 128], usize))
    requires
        6 + ty_1.spec_bytes().len() + 1 + ty_2.spec_bytes().len() + 1 <= CONST_STR_BUF_SIZE,
    ensures
        r.1 == pair_type_bytes(ty_1.spec_bytes(), ty_2.spec_bytes()).len(),
        holds_then_zeros(r.0@, pair_type_bytes(ty_1.spec_bytes(), ty_2.spec_bytes())),
{
    let start: [u8; 6] = [0x54, 0x50, 0x61, 0x69, 0x72, 0x3C];
    let sep: [u8; 1] = [0x2C];
    let end: [u8; 1] = [0x3E];
    let first = ty_1.as_bytes();
    let second = ty_2.as_bytes();
    let mut buf: [u8; 128] = vstd::array::array_fill_for_copy_types(0u8);
    let ghost zero = buf@;
    assert(start@ =~= pair_start());
    assert(sep@ =~= pair_separator());
    assert(end@ =~= type_end());
    let pos = copy_into(&mut buf, 0, start.as_slice());
    let pos = copy_into(&mut buf, pos, first);
    let pos = copy_into(&mut buf, pos, sep.as_slice());
    let pos = copy_into(&mut buf, pos, second);
    let pos = copy_into(&mut buf, pos, end.as_slice());
    proof {
        let bytes = pair_type_bytes(ty_1.spec_bytes(), ty_2.spec_bytes());
        assert(buf@.subrange(0, bytes.len() as int) =~= bytes);
        assert forall|i: int| bytes.len() <= i < 128 implies buf@[i] == 0 by {
            assert(zero[i] == 0);
        }
    }
    (buf, pos)
}

/// The ASCII bytes of a type ID frame are valid UTF-8.
proof fn lemma_ascii_valid(bytes: Seq<u8>)
    requires
        forall|i: int| 0 <= i < bytes.len() ==> #[trigger] bytes[i] < 0x80,
    ensures
        valid_utf8(bytes),
    decreases bytes.len(),
{
    let chars = Seq::new(bytes.len(), |i: int| bytes[i] as char);
    assert(vstd::utf8::is_ascii_chars(chars));
    vstd::utf8::is_ascii_chars_encode_utf8(chars);
    assert(encode_utf8(chars) =~= bytes);
    vstd::utf8::encode_utf8_valid_utf8(chars);
}

/// The type ID of an array whose elements have the type ID `contained_ty`.
pub fn array_type_id(contained_ty: &str) -> (r: String)
    requires
        7 + contained_ty.spec_bytes().len() + 1 <= CONST_STR_BUF_SIZE,
    ensures
        encode_utf8(r@) == array_type_bytes(contained_ty.spec_bytes()),
{
    let (buf, len) = make_array_ty(contained_ty);
    let bytes = vstd::slice::slice_subrange(buf.as_slice(), 0, len);
    proof {
        lemma_ascii_valid(array_start());
        lemma_ascii_valid(type_end());
        vstd::utf8::encode_utf8_valid_utf8(contained_ty@);
        vstd::utf8::valid_utf8_concat(array_start(), contained_ty.spec_bytes());
        vstd::utf8::valid_utf8_concat(array_start() + contained_ty.spec_bytes(), type_end());
        assert(bytes@ =~= array_type_bytes(contained_ty.spec_bytes()));
    }
    match str_from_utf8(bytes) {
        Ok(s) => {
            proof {
                vstd::utf8::decode_utf8_encode_utf8(bytes@);
            }
            s.to_owned()
        },
        Err(_) => {
            proof {
                assert(false);
            }
            String::new()
        },
    }
}

/// The type ID of a pair whose values have the type IDs `ty_1` and `ty_2`.
pub fn pair_type_id(ty_1: &str, ty_2: &str) -> (r: String)
    requires
        6 + ty_1.spec_bytes().len() + 1 + ty_2.spec_bytes().len() + 1 <= CONST_STR_BUF_SIZE,
    ensures
        encode_utf8(r@) == pair_type_bytes(ty_1.spec_bytes(), ty_2.spec_bytes()),
{
    let (buf, len) = make_pair_ty(ty_1, ty_2);
    let bytes = vstd::slice::slice_subrange(buf.as_slice(), 0, len);
    proof {
        lemma_ascii_valid(pair_start());
        lemma_ascii_valid(pair_separator());
        lemma_ascii_valid(type_end());
        vstd::utf8::encode_utf8_valid_utf8(ty_1@);
        vstd::utf8::encode_utf8_valid_utf8(ty_2@);
        vstd::utf8::valid_utf8_concat(pair_start(), ty_1.spec_bytes());
        vstd::utf8::valid_utf8_concat(pair_start() + ty_1.spec_bytes(), pair_separator());
        vstd::utf8::valid_utf8_concat(
            pair_start() + ty_1.spec_bytes() + pair_separator(),
            ty_2.spec_bytes(),
        );
        vstd::utf8::valid_utf8_concat(
            pair_start() + ty_1.spec_bytes() + pair_separator() + ty_2.spec_bytes(),
            type_end(),
        );
        assert(bytes@ =~= pair_type_bytes(ty_1.spec_bytes(), ty_2.spec_bytes()));
    }
    match str_from_utf8(bytes) {
        Ok(s) => {
            proof {
                vstd::utf8::decode_utf8_encode_utf8(bytes@);
            }
            s.to_owned()
        },
        Err(_) => {
            proof {
                assert(false);
            }
            String::new()
        },
    }
}

/// An arbitrary string, stored as a BIN1 type ID.
#[derive(Debug, Clone, PartialEq, Eq, Hash, PartialOrd, Ord)]
pub struct TypeID(pub String);

impl Aligned for TypeID {
    const ALIGNMENT: usize = 8;

    proof fn alignment_is_positive()
        ensures
            Self::ALIGNMENT == 8,
    {
    }
}

impl Bin1Serialize for TypeID {
    open spec fn alignment_spec(&self) -> usize {
        8
    }

    fn alignment(&self) -> (r: usize)
        ensures
            r == 8,
    {
        proof {
            assert(self.alignment_spec() == 8);
        }
        8
    }

    open spec fn write_spec(&self, before: SerializerView, after: SerializerView, r: Result<(), SerializeError>) -> bool {
        (r is Ok)
            && (after == before.after_type(self.0@))
    }

    /// Writes the index of the name among the type names.
    fn write(&self, ser: &mut Bin1Serializer) -> (r: Result<(), SerializeError>)
        ensures
            r is Ok,
            final(ser)@ == old(ser)@.after_type(self.0@),
    {
        ser.write_type(self.0.as_str());
        Ok(())
    }

    open spec fn resolve_spec(&self, before: SerializerView, after: SerializerView, r: Result<(), SerializeError>) -> bool {
        no_pointees(before, after, r)
    }

    /// There is nothing to resolve: the value has no pointers.
    fn resolve(&self, ser: &mut Bin1Serializer) -> (r: Result<(), SerializeError>) {
        proof {
            lemma_extended_by_refl(ser@);
        }
        Ok(())
    }
}

impl Bin1Deserialize for TypeID {
    const SIZE: usize = 8;

    open spec fn read_spec(before: DeserializerView, after: DeserializerView, r: Result<Self, DeserializeError>) -> bool {
        &&& (after == before.type_read().0)
        &&& (before.type_read().1 matches TypeRead::Name(name) ==> r matches Ok(t) && t.0@ == name)
        &&& (!(before.type_read().1 is Name) ==> r is Err)
    }

    /// Reads a type ID and gives its name.
    fn read(de: &mut Bin1Deserializer) -> (r: Result<Self, DeserializeError>)
        ensures
            final(de)@ == old(de)@.type_read().0,
            old(de)@.type_read().1 matches TypeRead::Name(name) ==> r matches Ok(t) && t.0@ == name,
            !(old(de)@.type_read().1 is Name) ==> r is Err,
    {
        let name = de.read_type()?;
        Ok(TypeID(name.to_owned()))
    }
}

} // verus!
