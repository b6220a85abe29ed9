//! Serialisation into the BIN1 format.
//!
//! A BIN1 file is a 16-byte header, a data section and a list of segments. The
//! header holds the magic `BIN1`, the root value's alignment, the number of
//! segments and the size of the data section. Offsets in the file are relative to
//! the start of the data section (byte 16). Pointers in the data section are written
//! as pointer IDs first, and patched into offsets when the serializer is finalised.
use vstd::prelude::*;
use std::collections::HashMap;
use crate::bytes::{
    be_bytes, le_bytes, le_value, lemma_pow256_monotone, lemma_pow256_positive,
    lemma_pow256_values, pow256,
    push_le_bytes,
};
use vstd::arithmetic::div_mod::lemma_div_denominator;
use vstd::utf8::encode_utf8;
use vstd::arithmetic::div_mod::{lemma_mod_self_0, lemma_small_mod};

verus! {

broadcast use vstd::std_specs::hash::group_hash_axioms;

/// Errors while producing a BIN1 file.
#[derive(Debug)]
pub enum SerializeError {
    /// A pointer refers to a pointer ID for which no pointee was written.
    UnresolvedPointer(u64),
    /// The data section would not fit the format's 32-bit offsets.
    OutputTooLarge,
    /// The elements of an array stored inline took more than its 16 bytes.
    InlineArrayTooLarge,
}

/// Types with a fixed alignment in the BIN1 data section.
pub trait Aligned {
    const ALIGNMENT: usize;

    /// Alignments are positive.
    proof fn alignment_is_positive()
        ensures
            Self::ALIGNMENT > 0,
    ;
}

/// The tag of the segment listing the positions of pointers.
pub const REBASE_SEGMENT_TAG: u32 = 0x12EBA5ED;

/// The tag of the segment listing type IDs and type names.
pub const TYPE_IDS_SEGMENT_TAG: u32 = 0x3989BF9F;

/// The tag of the segments listing runtime resource IDs and resource pointers.
pub const RESOURCE_IDS_SEGMENT_TAG: u32 = 0x578FBCEE;

/// The pointer ID that stands for a null pointer; it is never patched.
pub const NULL_POINTER_ID: u64 = 0xFFFF_FFFF_FFFF_FFFF;

/// What a serializer holds, as mathematical values.
#[verifier::ext_equal]
pub struct SerializerView {
    /// The header followed by the data section written so far.
    pub buffer: Seq<u8>,
    /// For each registered pointer ID, the offset of its pointee in the data section.
    pub offsets: Map<u64, u64>,
    /// Positions in the buffer of pointers still holding pointer IDs.
    pub pointers: Seq<usize>,
    /// Positions in the buffer of runtime resource IDs.
    pub runtime_resource_ids: Seq<usize>,
    /// Positions in the buffer of resource pointers.
    pub resource_ptrs: Seq<usize>,
    /// Positions in the buffer of type IDs.
    pub type_ids: Seq<usize>,
    /// The type names, in the order of their indices.
    pub type_names: Seq<Seq<char>>,
    /// Whether the runtime resource IDs segment is emitted.
    pub rrids_segment: bool,
    /// Whether the resource pointers segment is emitted.
    pub resource_ptrs_segment: bool,
}

/// The header that a new serializer starts with: the magic, the default alignment
/// of 1, and zeros where the segment count and the data size are filled in later.
pub open spec fn header_template() -> Seq<u8> {
    seq![0x42u8, 0x49, 0x4E, 0x31, 0, 1, 0, 0, 0, 0, 0, 0, 0, 0, 0, 0]
}

/// `count` zero bytes.
pub open spec fn zeros(count: nat) -> Seq<u8> {
    Seq::new(count, |i: int| 0u8)
}

/// The number of padding bytes that bring the data section's length `len - 16` to a
/// multiple of `alignment`.
pub open spec fn padding_for(len: nat, alignment: nat) -> nat {
    ((alignment - ((len - 16) as nat % alignment)) % (alignment as int)) as nat
}

/// The pointer ID held in the 8 bytes at `at`.
pub open spec fn id_at(buffer: Seq<u8>, at: int) -> nat {
    le_value(buffer.subrange(at, at + 8))
}

/// `buffer` with the bytes from `at` on replaced by `bytes`.
pub open spec fn splice(buffer: Seq<u8>, at: int, bytes: Seq<u8>) -> Seq<u8> {
    buffer.subrange(0, at) + bytes + buffer.subrange(at + bytes.len(), buffer.len() as int)
}

/// Position of `name` in `names`, if it occurs.
pub open spec fn name_index(names: Seq<Seq<char>>, name: Seq<char>) -> Option<nat> {
    if exists|i: int| 0 <= i < names.len() && names[i] == name {
        Some((choose|i: int| 0 <= i < names.len() && names[i] == name) as nat)
    } else {
        None
    }
}

/// Every position of `slots` starts 8 bytes that lie in the data section of a
/// buffer of length `len`, in increasing order without overlapping.
pub open spec fn slots_ok(slots: Seq<usize>, len: nat) -> bool {
    &&& forall|i: int| 0 <= i < slots.len() ==> 16 <= #[trigger] slots[i] && slots[i] + 8 <= len
    &&& forall|i: int, j: int| 0 <= i < j < slots.len() ==> #[trigger] slots[i] + 8 <= #[trigger] slots[j]
}

/// The ID held by the first of the pointer slots `pointers` of `buffer` that holds
/// neither the null pointer ID nor one registered in `offsets`, if any.
pub open spec fn first_unresolved_in(buffer: Seq<u8>, pointers: Seq<usize>, offsets: Map<u64, u64>) -> Option<u64>
    decreases pointers.len(),
{
    if pointers.len() == 0 {
        None
    } else {
        match first_unresolved_in(buffer, pointers.drop_last(), offsets) {
            Some(id) => Some(id),
            None => {
                let id = id_at(buffer, pointers.last() as int);
                if id == NULL_POINTER_ID || offsets.contains_key(id as u64) {
                    None
                } else {
                    Some(id as u64)
                }
            },
        }
    }
}

/// Where the first `j` slots already hold an unresolved pointer, the first
/// unresolved pointer of all the slots is that one.
proof fn lemma_first_unresolved_prefix(buffer: Seq<u8>, pointers: Seq<usize>, offsets: Map<u64, u64>, j: int)
    requires
        0 <= j <= pointers.len(),
        first_unresolved_in(buffer, pointers.take(j), offsets) is Some,
    ensures
        first_unresolved_in(buffer, pointers, offsets) == first_unresolved_in(
            buffer,
            pointers.take(j),
            offsets,
        ),
    decreases pointers.len(),
{
    if j == pointers.len() {
        assert(pointers.take(j) =~= pointers);
    } else {
        let rest = pointers.drop_last();
        assert(rest.take(j) =~= pointers.take(j));
        lemma_first_unresolved_prefix(buffer, rest, offsets, j);
    }
}

/// There is no unresolved pointer exactly when every slot holds the null pointer
/// ID or a registered one.
proof fn lemma_first_unresolved_none(buffer: Seq<u8>, pointers: Seq<usize>, offsets: Map<u64, u64>)
    ensures
        first_unresolved_in(buffer, pointers, offsets) is None <==> forall|i: int|
            0 <= i < pointers.len() ==> {
                let id = #[trigger] id_at(buffer, pointers[i] as int);
                id == NULL_POINTER_ID || offsets.contains_key(id as u64)
            },
    decreases pointers.len(),
{
    if pointers.len() > 0 {
        let rest = pointers.drop_last();
        let n = pointers.len() - 1;
        lemma_first_unresolved_none(buffer, rest, offsets);
        assert(forall|i: int| 0 <= i < rest.len() ==> #[trigger] rest[i] == pointers[i]);
        assert(pointers.last() == pointers[n]);
        let all = forall|i: int|
            0 <= i < pointers.len() ==> {
                let id = #[trigger] id_at(buffer, pointers[i] as int);
                id == NULL_POINTER_ID || offsets.contains_key(id as u64)
            };
        if all {
            assert forall|i: int| 0 <= i < rest.len() implies {
                let id = #[trigger] id_at(buffer, rest[i] as int);
                id == NULL_POINTER_ID || offsets.contains_key(id as u64)
            } by {
                assert(rest[i] == pointers[i]);
                assert(id_at(buffer, pointers[i] as int) == id_at(buffer, rest[i] as int));
            }
            assert(id_at(buffer, pointers[n] as int) == id_at(buffer, pointers.last() as int));
        }
        if first_unresolved_in(buffer, pointers, offsets) is None {
            assert forall|i: int| 0 <= i < pointers.len() implies {
                let id = #[trigger] id_at(buffer, pointers[i] as int);
                id == NULL_POINTER_ID || offsets.contains_key(id as u64)
            } by {
                if i < n {
                    assert(rest[i] == pointers[i]);
                    assert(id_at(buffer, pointers[i] as int) == id_at(buffer, rest[i] as int));
                }
            }
        }
    }
}

impl SerializerView {
    /// The buffer starts with the magic, every position recorded lies in the data
    /// section, every pointer slot and type ID slot is 8 bytes long, in increasing
    /// order and not overlapping the next one, and the type names are distinct and
    /// no more than the type IDs written.
    pub open spec fn wf(self) -> bool {
        &&& self.buffer.len() >= 16
        &&& self.buffer[6] == 0
        &&& forall|i: int|
            0 <= i < self.pointers.len() ==> 16 <= #[trigger] self.pointers[i] && self.pointers[i]
                + 8 <= self.buffer.len()
        &&& forall|i: int, j: int|
            0 <= i < j < self.pointers.len() ==> #[trigger] self.pointers[i] + 8
                <= #[trigger] self.pointers[j]
        &&& slots_ok(self.runtime_resource_ids, self.buffer.len())
        &&& slots_ok(self.resource_ptrs, self.buffer.len())
        &&& forall|i: int|
            0 <= i < self.type_ids.len() ==> 16 <= #[trigger] self.type_ids[i] && self.type_ids[i]
                + 8 <= self.buffer.len()
        &&& forall|i: int, j: int|
            0 <= i < j < self.type_ids.len() ==> #[trigger] self.type_ids[i] + 8
                <= #[trigger] self.type_ids[j]
        &&& forall|i: int, j: int|
            0 <= i < j < self.type_names.len() ==> #[trigger] self.type_names[i]
                != #[trigger] self.type_names[j]
        &&& self.type_names.len() <= self.type_ids.len()
        &&& self.buffer.take(4) == seq![0x42u8, 0x49, 0x4E, 0x31]
    }

    /// `next` is what a serializer in this state can become by writing more: the
    /// buffer and the recorded positions and names only grow at their ends, pointer
    /// slots recorded later lie past the bytes already written, pointer IDs stay
    /// registered, and the segment switches are unchanged.
    pub open spec fn extended_by(self, next: SerializerView) -> bool {
        &&& self.buffer.is_prefix_of(next.buffer)
        &&& self.pointers.is_prefix_of(next.pointers)
        &&& forall|i: int|
            self.pointers.len() <= i < next.pointers.len() ==> self.buffer.len()
                <= #[trigger] next.pointers[i]
        &&& self.runtime_resource_ids.is_prefix_of(next.runtime_resource_ids)
        &&& self.resource_ptrs.is_prefix_of(next.resource_ptrs)
        &&& self.type_ids.is_prefix_of(next.type_ids)
        &&& self.type_names.is_prefix_of(next.type_names)
        &&& self.offsets.dom().subset_of(next.offsets.dom())
        &&& self.rrids_segment == next.rrids_segment
        &&& self.resource_ptrs_segment == next.resource_ptrs_segment
    }

    /// Every pointer slot holds either the null pointer ID or a registered one.
    pub open spec fn pointers_resolved(self) -> bool {
        forall|i: int|
            0 <= i < self.pointers.len() ==> {
                let id = #[trigger] id_at(self.buffer, self.pointers[i] as int);
                id == NULL_POINTER_ID || self.offsets.contains_key(id as u64)
            }
    }

    /// The ID held by the first pointer slot that holds neither the null pointer ID
    /// nor a registered one, if any.
    pub open spec fn first_unresolved(self) -> Option<u64> {
        first_unresolved_in(self.buffer, self.pointers, self.offsets)
    }

    /// The sizes that the format's 32-bit fields must hold.
    pub open spec fn fits_format(self) -> bool {
        &&& self.buffer.len() <= u32::MAX
        &&& forall|i: int|
            0 <= i < self.type_names.len() ==> encode_utf8(#[trigger] self.type_names[i]).len()
                < u32::MAX
    }

    /// This state with `bytes` appended to the buffer.
    pub open spec fn append(self, bytes: Seq<u8>) -> SerializerView {
        SerializerView { buffer: self.buffer + bytes, ..self }
    }

    /// This state after writing a pointer holding `pointer_id`: padded to 8, with
    /// the ID's 8 little-endian bytes appended and their position recorded.
    pub open spec fn after_pointer(self, pointer_id: u64) -> SerializerView {
        let a = self.aligned(8);
        SerializerView {
            pointers: a.pointers.push(a.buffer.len() as usize),
            ..a.append(le_bytes(pointer_id as nat, 8))
        }
    }

    /// This state with `id` registered as the pointer ID of what is written next, at
    /// the current end of the data section.
    pub open spec fn registered(self, id: u64) -> SerializerView {
        SerializerView { offsets: self.offsets.insert(id, (self.buffer.len() - 16) as u64), ..self }
    }

    /// This state with the root alignment byte of the header set for a value of
    /// alignment `alignment`: that alignment, but at most 8.
    pub open spec fn rooted(self, alignment: usize) -> SerializerView {
        SerializerView {
            buffer: self.buffer.update(5, (if alignment < 8 { alignment } else { 8 }) as u8),
            ..self
        }
    }

    /// What finishing the file from this state gives: the first unresolved pointer
    /// ID, or that the output is too large, or the finished bytes.
    pub open spec fn finish_outcome(self) -> Result<Seq<u8>, SerializeError> {
        match self.first_unresolved() {
            Some(id) => Err(SerializeError::UnresolvedPointer(id)),
            None => if self.fits_format() {
                Ok(self.finalised())
            } else {
                Err(SerializeError::OutputTooLarge)
            },
        }
    }

    /// The index that the type name `name` has after it is written: its index among
    /// the type names, or the next one where it is new.
    pub open spec fn type_index(self, name: Seq<char>) -> nat {
        match name_index(self.type_names, name) {
            Some(i) => i,
            None => self.type_names.len(),
        }
    }

    /// This state after writing `name` as a type ID: padded to 8, with the name's
    /// index appended in 8 little-endian bytes, its position recorded, and the name
    /// added to the type names if it is new.
    pub open spec fn after_type(self, name: Seq<char>) -> SerializerView {
        let a = self.aligned(8);
        SerializerView {
            type_ids: a.type_ids.push(a.buffer.len() as usize),
            type_names: if name_index(a.type_names, name) is Some {
                a.type_names
            } else {
                a.type_names.push(name)
            },
            ..a.append(le_bytes(a.type_index(name), 8))
        }
    }

    /// This state with the buffer padded to `alignment`.
    pub open spec fn aligned(self, alignment: nat) -> SerializerView {
        self.append(zeros(padding_for(self.buffer.len(), alignment)))
    }
}

/// A sequence is a prefix of itself with more at its end.
pub proof fn lemma_prefix_append<A>(s: Seq<A>, t: Seq<A>)
    ensures
        s.is_prefix_of(s + t),
{
    assert((s + t).subrange(0, s.len() as int) =~= s);
}

/// A sequence is a prefix of itself with one more element.
pub proof fn lemma_prefix_push<A>(s: Seq<A>, x: A)
    ensures
        s.is_prefix_of(s.push(x)),
{
    assert(s.push(x).subrange(0, s.len() as int) =~= s);
}

/// Appending bytes keeps a serializer state well formed.
pub proof fn lemma_append_wf(v: SerializerView, bytes: Seq<u8>)
    requires
        v.wf(),
    ensures
        v.append(bytes).wf(),
        v.extended_by(v.append(bytes)),
{
    let w = v.append(bytes);
    assert(w.buffer[6] == v.buffer[6]);
    assert(w.buffer.take(4) =~= v.buffer.take(4));
    assert(v.buffer.is_prefix_of(w.buffer)) by {
        assert(w.buffer.subrange(0, v.buffer.len() as int) =~= v.buffer);
    }
    assert(v.pointers.is_prefix_of(w.pointers));
    assert(v.runtime_resource_ids.is_prefix_of(w.runtime_resource_ids));
    assert(v.resource_ptrs.is_prefix_of(w.resource_ptrs));
    assert(v.type_ids.is_prefix_of(w.type_ids));
    assert(v.type_names.is_prefix_of(w.type_names));
}

/// Writing a pointer keeps a serializer's state well formed and extends it.
pub proof fn lemma_after_pointer_wf(v: SerializerView, pointer_id: u64)
    requires
        v.wf(),
        v.aligned(8).buffer.len() <= usize::MAX,
    ensures
        v.after_pointer(pointer_id).wf(),
        v.extended_by(v.after_pointer(pointer_id)),
{
    let a = v.aligned(8);
    lemma_append_wf(v, zeros(padding_for(v.buffer.len(), 8)));
    let w = v.after_pointer(pointer_id);
    let plain = a.append(le_bytes(pointer_id as nat, 8));
    lemma_append_wf(a, le_bytes(pointer_id as nat, 8));
    assert(w.buffer == plain.buffer);
    assert(w.pointers =~= a.pointers.push(a.buffer.len() as usize));
    lemma_prefix_push(a.pointers, a.buffer.len() as usize);
    lemma_extended_by_transitive(v, a, plain);
    assert(a.wf());
    assert(w.buffer.len() == a.buffer.len() + 8);
    assert((a.buffer.len() as usize) == a.buffer.len());
    assert forall|i: int, j: int|
        0 <= i < j < w.pointers.len() implies #[trigger] w.pointers[i] + 8
        <= #[trigger] w.pointers[j] by {
        assert(w.pointers[i] == a.pointers[i]);
        if j < a.pointers.len() {
            assert(w.pointers[j] == a.pointers[j]);
            assert(a.pointers[i] + 8 <= a.pointers[j]);
        } else {
            assert(w.pointers[j] == a.buffer.len());
            assert(a.pointers[i] + 8 <= a.buffer.len());
        }
    }
    assert forall|i: int| 0 <= i < w.pointers.len() implies 16 <= #[trigger] w.pointers[i]
        && w.pointers[i] + 8 <= w.buffer.len() by {
        if i < a.pointers.len() {
            assert(w.pointers[i] == a.pointers[i]);
            assert(16 <= a.pointers[i] && a.pointers[i] + 8 <= a.buffer.len());
        } else {
            assert(w.pointers[i] == a.buffer.len());
        }
    }
    assert(v.pointers.is_prefix_of(w.pointers)) by {
        assert(w.pointers.subrange(0, v.pointers.len() as int) =~= v.pointers);
    }
    assert forall|i: int| v.pointers.len() <= i < w.pointers.len() implies v.buffer.len()
        <= #[trigger] w.pointers[i] by {
        if i < a.pointers.len() {
            assert(a.pointers == v.pointers);
        }
    }
}

/// Writes by a serializer compose.
pub proof fn lemma_extended_by_transitive(a: SerializerView, b: SerializerView, c: SerializerView)
    requires
        a.extended_by(b),
        b.extended_by(c),
    ensures
        a.extended_by(c),
{
    assert(a.buffer.is_prefix_of(c.buffer)) by {
        assert(c.buffer.subrange(0, a.buffer.len() as int) =~= b.buffer.subrange(0, a.buffer.len() as int));
    }
    assert(a.pointers.is_prefix_of(c.pointers)) by {
        assert(c.pointers.subrange(0, a.pointers.len() as int) =~= b.pointers.subrange(0, a.pointers.len() as int));
    }
    assert(a.runtime_resource_ids.is_prefix_of(c.runtime_resource_ids)) by {
        assert(c.runtime_resource_ids.subrange(0, a.runtime_resource_ids.len() as int) =~= b.runtime_resource_ids.subrange(0, a.runtime_resource_ids.len() as int));
    }
    assert(a.resource_ptrs.is_prefix_of(c.resource_ptrs)) by {
        assert(c.resource_ptrs.subrange(0, a.resource_ptrs.len() as int) =~= b.resource_ptrs.subrange(0, a.resource_ptrs.len() as int));
    }
    assert(a.type_ids.is_prefix_of(c.type_ids)) by {
        assert(c.type_ids.subrange(0, a.type_ids.len() as int) =~= b.type_ids.subrange(0, a.type_ids.len() as int));
    }
    assert(a.type_names.is_prefix_of(c.type_names)) by {
        assert(c.type_names.subrange(0, a.type_names.len() as int) =~= b.type_names.subrange(0, a.type_names.len() as int));
    }
    assert forall|i: int| a.pointers.len() <= i < c.pointers.len() implies a.buffer.len()
        <= #[trigger] c.pointers[i] by {
        if i < b.pointers.len() {
            assert(c.pointers.subrange(0, b.pointers.len() as int)[i] == b.pointers[i]);
        }
    }
}

/// Every serializer state extends itself.
pub proof fn lemma_extended_by_refl(a: SerializerView)
    ensures
        a.extended_by(a),
{
    assert(a.buffer.subrange(0, a.buffer.len() as int) =~= a.buffer);
    assert(a.pointers.subrange(0, a.pointers.len() as int) =~= a.pointers);
    assert(a.runtime_resource_ids.subrange(0, a.runtime_resource_ids.len() as int) =~= a.runtime_resource_ids);
    assert(a.resource_ptrs.subrange(0, a.resource_ptrs.len() as int) =~= a.resource_ptrs);
    assert(a.type_ids.subrange(0, a.type_ids.len() as int) =~= a.type_ids);
    assert(a.type_names.subrange(0, a.type_names.len() as int) =~= a.type_names);
}

/// The buffer with the pointer slots at `pointers` patched, in order: a slot holding
/// the null pointer ID is left as it is, any other slot gets the offset registered
/// for the ID it holds.
pub open spec fn patch_pointers(buffer: Seq<u8>, pointers: Seq<usize>, offsets: Map<u64, u64>) -> Seq<u8>
    decreases pointers.len(),
{
    if pointers.len() == 0 {
        buffer
    } else {
        let b = patch_pointers(buffer, pointers.drop_last(), offsets);
        let at = pointers.last() as int;
        let id = id_at(b, at);
        if id == NULL_POINTER_ID {
            b
        } else {
            splice(b, at, le_bytes(offsets[id as u64] as nat, 8))
        }
    }
}

/// The offsets in the data section of the positions, as 32-bit little-endian values.
pub open spec fn offset_entries(positions: Seq<usize>) -> Seq<u8>
    decreases positions.len(),
{
    if positions.len() == 0 {
        Seq::empty()
    } else {
        offset_entries(positions.drop_last()) + le_bytes(
            ((positions.last() - 16) as u32) as nat,
            4,
        )
    }
}

/// A segment body listing positions: their count, then their offsets.
pub open spec fn positions_body(positions: Seq<usize>) -> Seq<u8> {
    le_bytes((positions.len() as u32) as nat, 4) + offset_entries(positions)
}

/// A segment: its tag, the length of its body, and the body.
pub open spec fn segment(tag: u32, body: Seq<u8>) -> Seq<u8> {
    le_bytes(tag as nat, 4) + le_bytes((body.len() as u32) as nat, 4) + body
}

/// The entry of one type name: its index, `u32::MAX`, the length of the name with
/// its terminating zero, and the zero-terminated name.
pub open spec fn type_entry(index: nat, name: Seq<u8>) -> Seq<u8> {
    le_bytes((index as u32) as nat, 4) + le_bytes(u32::MAX as nat, 4) + le_bytes(
        (name.len() + 1) as nat,
        4,
    ) + name + seq![0u8]
}

/// The entries of the type names, each padded to 4 within the segment body, where
/// the entries start at `start` within the body.
pub open spec fn type_entries(names: Seq<Seq<char>>, start: nat) -> Seq<u8>
    decreases names.len(),
{
    if names.len() == 0 {
        Seq::empty()
    } else {
        let prev = type_entries(names.drop_last(), start);
        let padding = ((4 - (start + prev.len()) % 4) % 4) as nat;
        prev + zeros(padding) + type_entry((names.len() - 1) as nat, encode_utf8(names.last()))
    }
}

/// The head of the type IDs segment body: the positions of type IDs and the
/// number of type names.
pub open spec fn types_head(type_ids: Seq<usize>, names: Seq<Seq<char>>) -> Seq<u8> {
    positions_body(type_ids) + le_bytes((names.len() as u32) as nat, 4)
}

/// The body of the type IDs segment.
pub open spec fn types_body(type_ids: Seq<usize>, names: Seq<Seq<char>>) -> Seq<u8> {
    let head = types_head(type_ids, names);
    head + type_entries(names, head.len())
}

impl SerializerView {
    /// Whether each of the four segments is emitted.
    pub open spec fn has_rebase_segment(self) -> bool {
        self.pointers.len() > 0
    }

    pub open spec fn has_types_segment(self) -> bool {
        self.type_ids.len() > 0
    }

    pub open spec fn has_rrids_segment(self) -> bool {
        self.rrids_segment && self.runtime_resource_ids.len() > 0
    }

    pub open spec fn has_resource_ptrs_segment(self) -> bool {
        self.resource_ptrs_segment && self.resource_ptrs.len() > 0
    }

    /// The number of segments emitted.
    pub open spec fn segment_count(self) -> nat {
        (if self.has_rebase_segment() { 1nat } else { 0 }) + (if self.has_types_segment() {
            1nat
        } else {
            0
        }) + (if self.has_rrids_segment() { 1nat } else { 0 }) + (
        if self.has_resource_ptrs_segment() {
            1nat
        } else {
            0
        })
    }

    /// The segments, in the order they are emitted.
    pub open spec fn segments(self) -> Seq<u8> {
        (if self.has_rebase_segment() {
            segment(REBASE_SEGMENT_TAG, positions_body(self.pointers))
        } else {
            Seq::empty()
        }) + (if self.has_types_segment() {
            segment(TYPE_IDS_SEGMENT_TAG, types_body(self.type_ids, self.type_names))
        } else {
            Seq::empty()
        }) + (if self.has_rrids_segment() {
            segment(RESOURCE_IDS_SEGMENT_TAG, positions_body(self.runtime_resource_ids))
        } else {
            Seq::empty()
        }) + (if self.has_resource_ptrs_segment() {
            segment(RESOURCE_IDS_SEGMENT_TAG, positions_body(self.resource_ptrs))
        } else {
            Seq::empty()
        })
    }

    /// The finished file: the buffer with its pointers patched, the segment count
    /// at byte 6 and the size of the data section (big-endian) at bytes 8 to 11,
    /// followed by the segments.
    pub open spec fn finalised(self) -> Seq<u8> {
        let patched = patch_pointers(self.buffer, self.pointers, self.offsets);
        splice(
            patched.update(6, self.segment_count() as u8),
            8,
            be_bytes((self.buffer.len() - 16) as nat, 4),
        ) + self.segments()
    }
}

/// Patching the first pointer slots leaves everything after the last of them as it
/// was, and the length too.
proof fn lemma_patch_frame(buffer: Seq<u8>, pointers: Seq<usize>, offsets: Map<u64, u64>)
    requires
        forall|i: int| 0 <= i < pointers.len() ==> #[trigger] pointers[i] + 8 <= buffer.len(),
        forall|i: int, j: int|
            0 <= i < j < pointers.len() ==> #[trigger] pointers[i] + 8 <= #[trigger] pointers[j],
    ensures
        patch_pointers(buffer, pointers, offsets).len() == buffer.len(),
        forall|x: int|
            (pointers.len() == 0 || pointers.last() + 8 <= x) && 0 <= x < buffer.len()
                ==> #[trigger] patch_pointers(buffer, pointers, offsets)[x] == buffer[x],
    decreases pointers.len(),
{
    if pointers.len() > 0 {
        let rest = pointers.drop_last();
        lemma_patch_frame(buffer, rest, offsets);
        let b = patch_pointers(buffer, rest, offsets);
        let at = pointers.last() as int;
        if rest.len() > 0 {
            assert(rest.last() + 8 <= at);
        }
        let id = id_at(b, at);
        if id != NULL_POINTER_ID {
            let bytes = le_bytes(offsets[id as u64] as nat, 8);
            let p = splice(b, at, bytes);
            assert(p.len() == b.len());
            assert forall|x: int|
                at + 8 <= x && x < buffer.len() implies #[trigger] p[x] == buffer[x] by {
                assert(p[x] == b[x]);
            }
        }
    }
}

/// Decodes the pointer ID in the 8 bytes at `at`.
fn read_id(buffer: &Vec<u8>, at: usize) -> (r: u64)
    requires
        at + 8 <= buffer@.len(),
    ensures
        r as nat == id_at(buffer@, at as int),
{
    let mut k: usize = 8;
    let mut v: u64 = 0;
    let len = buffer.len();
    proof {
        lemma_pow256_values();
        assert(buffer@.subrange(at + 8, at + 8) =~= Seq::<u8>::empty());
    }
    while k > 0
        invariant
            k <= 8,
            at + 8 <= buffer@.len(),
            len == buffer@.len(),
            v as nat == le_value(buffer@.subrange(at + k, at + 8)),
            v < pow256((8 - k) as nat),
        decreases k,
    {
        let ghost tail = buffer@.subrange(at + k, at + 8);
        let ghost next = buffer@.subrange(at + k - 1, at + 8);
        assert(next.drop_first() =~= tail);
        assert(pow256((8 - k + 1) as nat) == 256 * pow256((8 - k) as nat));
        assert(v * 256 + buffer@[at + k - 1] < pow256((8 - k + 1) as nat)) by (nonlinear_arith)
            requires
                v < pow256((8 - k) as nat),
                buffer@[at + k - 1] < 256,
                pow256((8 - k + 1) as nat) == 256 * pow256((8 - k) as nat),
        ;
        proof {
            lemma_pow256_values();
            lemma_pow256_monotone((8 - k + 1) as nat, 8);
        }
        v = v * 256 + buffer[at + k - 1] as u64;
        k = k - 1;
    }
    v
}

/// Overwrites the 8 bytes at `at` with the little-endian bytes of `value`.
fn patch_slot(buffer: &mut Vec<u8>, at: usize, value: u64)
    requires
        at + 8 <= old(buffer)@.len(),
    ensures
        final(buffer)@ == splice(old(buffer)@, at as int, le_bytes(value as nat, 8)),
{
    let ghost start = buffer@;
    let mut x: u64 = value;
    let mut k: usize = 0;
    let len = buffer.len();
    proof {
        lemma_pow256_values();
    }
    while k < 8
        invariant
            k <= 8,
            len == start.len(),
            at + 8 <= start.len(),
            buffer@.len() == start.len(),
            x as nat == value as nat / pow256(k as nat),
            forall|j: int| 0 <= j < buffer@.len() ==> #[trigger] buffer@[j] == if at <= j < at + k {
                le_bytes(value as nat, 8)[j - at]
            } else {
                start[j]
            },
        decreases 8 - k,
    {
        proof {
            lemma_pow256_positive(k as nat);
            lemma_div_denominator(value as int, pow256(k as nat) as int, 256);
            assert(pow256(k as nat) * 256 == pow256((k + 1) as nat));
        }
        buffer.set(at + k, (x % 256) as u8);
        x = x / 256;
        k = k + 1;
    }
    assert(buffer@ =~= splice(start, at as int, le_bytes(value as nat, 8)));
}

/// Overwrites the 4 bytes at `at` with the big-endian bytes of `value`.
fn set_be_u32(buffer: &mut Vec<u8>, at: usize, value: u32)
    requires
        at + 4 <= old(buffer)@.len(),
    ensures
        final(buffer)@ == splice(old(buffer)@, at as int, be_bytes(value as nat, 4)),
{
    let ghost start = buffer@;
    let mut x: u32 = value;
    let mut k: usize = 0;
    let len = buffer.len();
    proof {
        lemma_pow256_values();
    }
    while k < 4
        invariant
            k <= 4,
            len == start.len(),
            at + 4 <= start.len(),
            buffer@.len() == start.len(),
            x as nat == value as nat / pow256(k as nat),
            forall|j: int| 0 <= j < buffer@.len() ==> #[trigger] buffer@[j] == if at + 4 - k <= j < at + 4 {
                le_bytes(value as nat, 4)[at + 3 - j]
            } else {
                start[j]
            },
        decreases 4 - k,
    {
        proof {
            lemma_pow256_positive(k as nat);
            lemma_div_denominator(value as int, pow256(k as nat) as int, 256);
            assert(pow256(k as nat) * 256 == pow256((k + 1) as nat));
        }
        buffer.set(at + 3 - k, (x % 256) as u8);
        x = x / 256;
        k = k + 1;
    }
    assert(buffer@ =~= splice(start, at as int, be_bytes(value as nat, 4)));
}

/// Patches every pointer slot, in order, as `patch_pointers` describes.
fn patch_pointer_slots(
    buffer: &mut Vec<u8>,
    pointers: &Vec<usize>,
    offsets: &HashMap<u64, u64>,
    Ghost(v): Ghost<SerializerView>,
)
    requires
        v.wf(),
        v.pointers_resolved(),
        v.buffer == old(buffer)@,
        v.pointers == pointers@,
        v.offsets == offsets@,
    ensures
        final(buffer)@ == patch_pointers(v.buffer, v.pointers, v.offsets),
        final(buffer)@.len() == v.buffer.len(),
{
    let mut i: usize = 0;
    while i < pointers.len()
        invariant
            i <= pointers@.len(),
            v.wf(),
            v.pointers_resolved(),
            v.pointers == pointers@,
            v.offsets == offsets@,
            buffer@ == patch_pointers(v.buffer, pointers@.take(i as int), offsets@),
        decreases pointers@.len() - i,
    {
        let at = pointers[i];
        let ghost prefix = pointers@.take(i as int);
        proof {
            assert forall|a: int, b: int|
                0 <= a < b < prefix.len() implies #[trigger] prefix[a] + 8
                <= #[trigger] prefix[b] by {
                assert(v.pointers[a] + 8 <= v.pointers[b]);
            }
            assert forall|a: int| 0 <= a < prefix.len() implies #[trigger] prefix[a] + 8
                <= v.buffer.len() by {
                assert(v.pointers[a] + 8 <= v.buffer.len());
            }
            lemma_patch_frame(v.buffer, prefix, offsets@);
            if i > 0 {
                assert(v.pointers[i - 1] + 8 <= v.pointers[i as int]);
            }
            assert(buffer@.subrange(at as int, at + 8) =~= v.buffer.subrange(at as int, at + 8));
            assert(v.pointers[i as int] + 8 <= v.buffer.len());
            let _ = id_at(v.buffer, v.pointers[i as int] as int);
            assert(pointers@.take(i + 1).drop_last() =~= prefix);
            assert(pointers@.take(i + 1).last() == at);
        }
        let id = read_id(&*buffer, at);
        if id != NULL_POINTER_ID {
            let offset = match offsets.get(&id) {
                Some(o) => *o,
                None => {
                    proof {
                        assert(false);
                    }
                    0
                },
            };
            patch_slot(buffer, at, offset);
        }
        i = i + 1;
    }
    proof {
        assert(pointers@.take(pointers@.len() as int) =~= pointers@);
        lemma_patch_frame(v.buffer, pointers@, offsets@);
    }
}

/// Appends the segments that a serializer in state `v` emits; returns their number.
#[verifier::spinoff_prover]
#[verifier::rlimit(40)]
fn append_segments(
    buffer: &mut Vec<u8>,
    pointers: &Vec<usize>,
    runtime_resource_ids: &Vec<usize>,
    resource_ptrs: &Vec<usize>,
    type_ids: &Vec<usize>,
    type_names: &Vec<String>,
    rrids_segment: bool,
    resource_ptrs_segment: bool,
    Ghost(v): Ghost<SerializerView>,
) -> (count: u8)
    requires
        v.wf(),
        v.fits_format(),
        v.pointers == pointers@,
        v.runtime_resource_ids == runtime_resource_ids@,
        v.resource_ptrs == resource_ptrs@,
        v.type_ids == type_ids@,
        v.type_names == type_names@.map_values(|s: String| s@),
        v.rrids_segment == rrids_segment,
        v.resource_ptrs_segment == resource_ptrs_segment,
    ensures
        final(buffer)@ == old(buffer)@ + v.segments(),
        count as nat == v.segment_count(),
{
    let ghost header = buffer@;
    let mut count: u8 = 0;
    if pointers.len() > 0 {
        count = count + 1;
        proof {
            assert forall|k: int| 0 <= k < pointers@.len() implies 16 <= #[trigger] pointers@[k] by {
                assert(16 <= v.pointers[k]);
            }
        }
        let body = positions_body_bytes(pointers);
        push_segment(buffer, REBASE_SEGMENT_TAG, &body);
    }
    let ghost after_rebase = buffer@;
    assert(after_rebase =~= header + (if v.has_rebase_segment() {
        segment(REBASE_SEGMENT_TAG, positions_body(v.pointers))
    } else {
        Seq::empty()
    }));
    if type_ids.len() > 0 {
        count = count + 1;
        proof {
            assert forall|k: int| 0 <= k < type_ids@.len() implies 16 <= #[trigger] type_ids@[k] by {
                assert(16 <= v.type_ids[k]);
            }
            assert forall|k: int| 0 <= k < type_names@.len() implies encode_utf8(
                #[trigger] type_names@[k]@,
            ).len() < u32::MAX by {
                assert(v.type_names[k] == type_names@[k]@);
            }
        }
        let body = types_body_bytes(type_ids, type_names);
        push_segment(buffer, TYPE_IDS_SEGMENT_TAG, &body);
    }
    let ghost after_types = buffer@;
    assert(after_types =~= after_rebase + (if v.has_types_segment() {
        segment(TYPE_IDS_SEGMENT_TAG, types_body(v.type_ids, v.type_names))
    } else {
        Seq::empty()
    }));
    if rrids_segment && runtime_resource_ids.len() > 0 {
        count = count + 1;
        proof {
            assert forall|k: int| 0 <= k < runtime_resource_ids@.len() implies 16
                <= #[trigger] runtime_resource_ids@[k] by {
                assert(16 <= v.runtime_resource_ids[k]);
            }
        }
        let body = positions_body_bytes(runtime_resource_ids);
        push_segment(buffer, RESOURCE_IDS_SEGMENT_TAG, &body);
    }
    let ghost after_rrids = buffer@;
    assert(after_rrids =~= after_types + (if v.has_rrids_segment() {
        segment(RESOURCE_IDS_SEGMENT_TAG, positions_body(v.runtime_resource_ids))
    } else {
        Seq::empty()
    }));
    if resource_ptrs_segment && resource_ptrs.len() > 0 {
        count = count + 1;
        proof {
            assert forall|k: int| 0 <= k < resource_ptrs@.len() implies 16
                <= #[trigger] resource_ptrs@[k] by {
                assert(16 <= v.resource_ptrs[k]);
            }
        }
        let body = positions_body_bytes(resource_ptrs);
        push_segment(buffer, RESOURCE_IDS_SEGMENT_TAG, &body);
    }
    proof {
        assert(buffer@ =~= header + v.segments());
    }
    count
}

/// The body of a segment listing `positions`.
fn positions_body_bytes(positions: &Vec<usize>) -> (r: Vec<u8>)
    requires
        forall|i: int| 0 <= i < positions@.len() ==> 16 <= #[trigger] positions@[i],
    ensures
        r@ == positions_body(positions@),
{
    let mut body: Vec<u8> = Vec::new();
    push_le_bytes(&mut body, positions.len() as u32 as u64, 4);
    let ghost head = body@;
    let mut i: usize = 0;
    while i < positions.len()
        invariant
            i <= positions@.len(),
            forall|k: int| 0 <= k < positions@.len() ==> 16 <= #[trigger] positions@[k],
            head == le_bytes((positions@.len() as u32) as nat, 4),
            body@ == head + offset_entries(positions@.take(i as int)),
        decreases positions@.len() - i,
    {
        let p = positions[i];
        push_le_bytes(&mut body, (p - 16) as u32 as u64, 4);
        proof {
            assert(positions@.take(i + 1).drop_last() =~= positions@.take(i as int));
            assert(body@ =~= head + offset_entries(positions@.take(i + 1)));
        }
        i = i + 1;
    }
    assert(positions@.take(positions@.len() as int) =~= positions@);
    body
}

/// Appends a segment with `tag` and `body`.
fn push_segment(buffer: &mut Vec<u8>, tag: u32, body: &Vec<u8>)
    ensures
        final(buffer)@ == old(buffer)@ + segment(tag, body@),
{
    push_le_bytes(buffer, tag as u64, 4);
    push_le_bytes(buffer, body.len() as u32 as u64, 4);
    let ghost start = buffer@;
    let mut i: usize = 0;
    while i < body.len()
        invariant
            i <= body@.len(),
            buffer@ == start + body@.subrange(0, i as int),
        decreases body@.len() - i,
    {
        buffer.push(body[i]);
        i = i + 1;
        assert(buffer@ =~= start + body@.subrange(0, i as int));
    }
    assert(body@.subrange(0, body@.len() as int) =~= body@);
    assert(buffer@ =~= old(buffer)@ + segment(tag, body@));
}

/// Appends the padding to 4 and the entry of the type name `name` with index `idx`.
#[verifier::spinoff_prover]
#[verifier::rlimit(30)]
fn push_type_entry(body: &mut Vec<u8>, idx: usize, name: &str)
    requires
        encode_utf8(name@).len() < u32::MAX,
    ensures
        final(body)@ == old(body)@ + zeros(((4 - old(body)@.len() % 4) % 4) as nat) + type_entry(
            idx as nat,
            encode_utf8(name@),
        ),
{
    let ghost prev = body@;
    let padding = 4 - (body.len() % 4);
    if padding < 4 {
        let mut z: usize = 0;
        while z < padding
            invariant
                z <= padding,
                body@ == prev + zeros(z as nat),
            decreases padding - z,
        {
            body.push(0);
            z = z + 1;
            assert(body@ =~= prev + zeros(z as nat));
        }
    } else {
        assert(body@ =~= prev + zeros(0));
    }
    let ghost padded = body@;
    let name_bytes = name.as_bytes();
    push_le_bytes(body, idx as u32 as u64, 4);
    push_le_bytes(body, u32::MAX as u64, 4);
    push_le_bytes(body, (name_bytes.len() as u32 + 1) as u64, 4);
    let ghost before_name = body@;
    let mut k: usize = 0;
    while k < name_bytes.len()
        invariant
            k <= name_bytes@.len(),
            body@ == before_name + name_bytes@.subrange(0, k as int),
        decreases name_bytes@.len() - k,
    {
        body.push(name_bytes[k]);
        k = k + 1;
        assert(body@ =~= before_name + name_bytes@.subrange(0, k as int));
    }
    body.push(0);
    assert(name_bytes@.subrange(0, name_bytes@.len() as int) =~= name_bytes@);
    assert(body@ =~= prev + zeros(((4 - prev.len() % 4) % 4) as nat) + type_entry(
        idx as nat,
        encode_utf8(name@),
    ));
}

/// The body of the type IDs segment.
fn types_body_bytes(type_ids: &Vec<usize>, type_names: &Vec<String>) -> (r: Vec<u8>)
    requires
        forall|i: int| 0 <= i < type_ids@.len() ==> 16 <= #[trigger] type_ids@[i],
        forall|i: int|
            0 <= i < type_names@.len() ==> encode_utf8(#[trigger] type_names@[i]@).len()
                < u32::MAX,
    ensures
        r@ == types_body(type_ids@, type_names@.map_values(|s: String| s@)),
{
    let ghost names = type_names@.map_values(|s: String| s@);
    let mut body = positions_body_bytes(type_ids);
    push_le_bytes(&mut body, type_names.len() as u32 as u64, 4);
    let ghost head = body@;
    assert(head == types_head(type_ids@, names));
    let mut idx: usize = 0;
    while idx < type_names.len()
        invariant
            idx <= type_names@.len(),
            names == type_names@.map_values(|s: String| s@),
            forall|i: int|
                0 <= i < type_names@.len() ==> encode_utf8(#[trigger] type_names@[i]@).len()
                    < u32::MAX,
            body@ == head + type_entries(names.take(idx as int), head.len()),
        decreases type_names@.len() - idx,
    {
        let ghost prev = body@;
        let name = type_names[idx].as_str();
        assert(names[idx as int] == type_names@[idx as int]@);
        push_type_entry(&mut body, idx, name);
        proof {
            let t = names.take(idx + 1);
            assert(t.drop_last() =~= names.take(idx as int));
            assert(t.last() == names[idx as int]);
            let pv = type_entries(names.take(idx as int), head.len());
            assert(prev.len() == head.len() + pv.len());
            assert(body@ =~= head + type_entries(t, head.len()));
        }
        idx = idx + 1;
    }
    assert(names.take(names.len() as int) =~= names);
    body
}

/// Writes values into a BIN1 buffer and produces the finished file.
pub struct Bin1Serializer {
    buffer: Vec<u8>,
    offsets: HashMap<u64, u64>,
    pointers: Vec<usize>,
    runtime_resource_ids: Vec<usize>,
    resource_ptrs: Vec<usize>,
    type_ids: Vec<usize>,
    type_names: Vec<String>,
    rrids_segment: bool,
    resource_ptrs_segment: bool,
}

impl View for Bin1Serializer {
    type V = SerializerView;

    closed spec fn view(&self) -> SerializerView {
        SerializerView {
            buffer: self.buffer@,
            offsets: self.offsets@,
            pointers: self.pointers@,
            runtime_resource_ids: self.runtime_resource_ids@,
            resource_ptrs: self.resource_ptrs@,
            type_ids: self.type_ids@,
            type_names: self.type_names@.map_values(|s: String| s@),
            rrids_segment: self.rrids_segment,
            resource_ptrs_segment: self.resource_ptrs_segment,
        }
    }
}

/// Values that can be written into a BIN1 buffer.
pub trait Bin1Serialize {
    /// The alignment that `alignment` gives.
    spec fn alignment_spec(&self) -> usize;

    /// The alignment of the value in the data section.
    fn alignment(&self) -> (r: usize)
        ensures
            r > 0,
            r == self.alignment_spec(),
    ;

    /// What writing the value does: a serializer in the state `before` goes to the
    /// state `after`, and `r` is returned.
    spec fn write_spec(&self, before: SerializerView, after: SerializerView, r: Result<(), SerializeError>) -> bool;

    /// Writes the value at the current position.
    fn write(&self, ser: &mut Bin1Serializer) -> (r: Result<(), SerializeError>)
        requires
            old(ser)@.wf(),
        ensures
            final(ser)@.wf(),
            old(ser)@.extended_by(final(ser)@),
            self.write_spec(old(ser)@, final(ser)@, r),
    ;

    /// Pads the buffer to the value's alignment, then writes the value.
    fn write_aligned(&self, ser: &mut Bin1Serializer) -> (r: Result<(), SerializeError>)
        requires
            old(ser)@.wf(),
        ensures
            final(ser)@.wf(),
            old(ser)@.extended_by(final(ser)@),
            old(ser)@.aligned(self.alignment_spec() as nat).extended_by(final(ser)@),
            self.write_spec(old(ser)@.aligned(self.alignment_spec() as nat), final(ser)@, r),
    {
        let alignment = self.alignment();
        ser.align_to(alignment);
        self.write(ser)
    }

    /// What resolving the value does: a serializer in the state `before` goes to
    /// the state `after`, and `r` is returned.
    spec fn resolve_spec(&self, before: SerializerView, after: SerializerView, r: Result<(), SerializeError>) -> bool;

    /// Writes the data that the value's pointers point to.
    fn resolve(&self, ser: &mut Bin1Serializer) -> (r: Result<(), SerializeError>)
        requires
            old(ser)@.wf(),
        ensures
            final(ser)@.wf(),
            old(ser)@.extended_by(final(ser)@),
            self.resolve_spec(old(ser)@, final(ser)@, r),
    ;
}

/// Resolving a value that has no pointers changes nothing and succeeds.
pub open spec fn no_pointees(before: SerializerView, after: SerializerView, r: Result<(), SerializeError>) -> bool {
    after == before && r is Ok
}

/// The state after a pointee's data was written, with `end_pointer_id`, if any,
/// registered just after it.
pub open spec fn with_end(written: SerializerView, end_pointer_id: Option<u64>) -> SerializerView {
    match end_pointer_id {
        Some(e) => written.registered(e),
        None => written,
    }
}

/// What writing the pointee of `pointer_id` does, where `write` and `resolve` say
/// what writing and resolving its data do: nothing, with `Ok`, where the pointer was
/// registered already; otherwise the buffer is padded to `alignment`, the pointer
/// is registered there and the data written; a failed write is returned as it is;
/// after a successful one `end_pointer_id` (if any) is registered just after the
/// data, the data is resolved, and what that returns is returned.
pub open spec fn pointee_spec(
    write: spec_fn(SerializerView, SerializerView, Result<(), SerializeError>) -> bool,
    resolve: spec_fn(SerializerView, SerializerView, Result<(), SerializeError>) -> bool,
    alignment: nat,
    pointer_id: u64,
    end_pointer_id: Option<u64>,
    before: SerializerView,
    after: SerializerView,
    r: Result<(), SerializeError>,
) -> bool {
    if before.offsets.contains_key(pointer_id) {
        after == before && r is Ok
    } else {
        exists|written: SerializerView, r1: Result<(), SerializeError>|
            #![trigger write(before.aligned(alignment).registered(pointer_id), written, r1)]
            write(before.aligned(alignment).registered(pointer_id), written, r1) && (r1 is Err
                ==> after == written && r == r1) && (r1 is Ok ==> resolve(
                with_end(written, end_pointer_id),
                after,
                r,
            ))
    }
}

impl Default for Bin1Serializer {
    fn default() -> (r: Self)
        ensures
            r@.wf(),
            r@.buffer == header_template(),
            r@.offsets == Map::<u64, u64>::empty(),
            r@.pointers == Seq::<usize>::empty(),
            r@.runtime_resource_ids == Seq::<usize>::empty(),
            r@.resource_ptrs == Seq::<usize>::empty(),
            r@.type_ids == Seq::<usize>::empty(),
            r@.type_names == Seq::<Seq<char>>::empty(),
            r@.rrids_segment,
            r@.resource_ptrs_segment,
    {
        let mut buffer: Vec<u8> = Vec::new();
        buffer.push(0x42);
        buffer.push(0x49);
        buffer.push(0x4E);
        buffer.push(0x31);
        buffer.push(0);  // padding
        buffer.push(1);  // alignment
        buffer.push(0);  // number of segments, filled in when finalised
        buffer.push(0);
        let mut i: usize = 0;
        // data size (big-endian), filled in when finalised, then four more zero bytes
        while i < 8
            invariant
                0 <= i <= 8,
                buffer@ == header_template().subrange(0, 8 + i as int),
            decreases 8 - i,
        {
            buffer.push(0);
            i = i + 1;
            assert(buffer@ =~= header_template().subrange(0, 8 + i as int));
        }
        assert(buffer@ =~= header_template());
        let r = Bin1Serializer {
            buffer,
            offsets: HashMap::new(),
            pointers: Vec::new(),
            runtime_resource_ids: Vec::new(),
            resource_ptrs: Vec::new(),
            type_ids: Vec::new(),
            type_names: Vec::new(),
            rrids_segment: true,
            resource_ptrs_segment: true,
        };
        assert(r@.type_names =~= Seq::<Seq<char>>::empty());
        assert(r@.buffer.take(4) =~= seq![0x42u8, 0x49, 0x4E, 0x31]);
        r
    }
}

impl Bin1Serializer {
    /// A serializer holding only the header, with both resource segments enabled.
    pub fn new() -> (r: Self)
        ensures
            r@.wf(),
            r@.buffer == header_template(),
            r@.offsets == Map::<u64, u64>::empty(),
            r@.pointers == Seq::<usize>::empty(),
            r@.runtime_resource_ids == Seq::<usize>::empty(),
            r@.resource_ptrs == Seq::<usize>::empty(),
            r@.type_ids == Seq::<usize>::empty(),
            r@.type_names == Seq::<Seq<char>>::empty(),
            r@.rrids_segment,
            r@.resource_ptrs_segment,
    {
        Self::default()
    }

    /// Enables or disables the runtime resource IDs segment.
    pub fn with_rrids_segment(self, enabled: bool) -> (r: Self)
        ensures
            r@ == (SerializerView { rrids_segment: enabled, ..self@ }),
    {
        let mut s = self;
        s.rrids_segment = enabled;
        s
    }

    /// Enables or disables the resource pointers segment.
    pub fn with_resource_ptrs_segment(self, enabled: bool) -> (r: Self)
        ensures
            r@ == (SerializerView { resource_ptrs_segment: enabled, ..self@ }),
    {
        let mut s = self;
        s.resource_ptrs_segment = enabled;
        s
    }

    /// Pads the data section with zeros to a multiple of `alignment`.
    pub fn align_to(&mut self, alignment: usize)
        requires
            old(self)@.wf(),
            alignment > 0,
        ensures
            final(self)@ == old(self)@.aligned(alignment as nat),
            final(self)@.wf(),
            (final(self)@.buffer.len() - 16) % (alignment as int) == 0,
            padding_for(old(self)@.buffer.len(), alignment as nat) < alignment,
            old(self)@.extended_by(final(self)@),
    {
        let padding = alignment - ((self.buffer.len() - 16) % alignment);
        if padding < alignment {
            let ghost start = self.buffer@;
            let mut i: usize = 0;
            while i < padding
                invariant
                    i <= padding,
                    self.buffer@ == start + zeros(i as nat),
                    self.offsets == old(self).offsets,
                    self.pointers == old(self).pointers,
                    self.runtime_resource_ids == old(self).runtime_resource_ids,
                    self.resource_ptrs == old(self).resource_ptrs,
                    self.type_ids == old(self).type_ids,
                    self.type_names == old(self).type_names,
                    self.rrids_segment == old(self).rrids_segment,
                    self.resource_ptrs_segment == old(self).resource_ptrs_segment,
                decreases padding - i,
            {
                self.buffer.push(0);
                i = i + 1;
                assert(self.buffer@ =~= start + zeros(i as nat));
            }
            proof {
                lemma_small_mod(padding as nat, alignment as nat);
                assert(padding_for(start.len(), alignment as nat) == padding);
                assert((start.len() - 16 + padding) % (alignment as int) == 0) by (nonlinear_arith)
                    requires
                        padding == alignment - ((start.len() - 16) % (alignment as int)),
                        alignment > 0,
                        start.len() >= 16,
                ;
            }
        } else {
            proof {
                lemma_mod_self_0(alignment as int);
                assert(padding_for(self.buffer@.len(), alignment as nat) == 0);
                assert(self.buffer@ =~= self.buffer@ + zeros(0));
            }
        }
        proof {
            lemma_append_wf(old(self)@, zeros(padding_for(old(self)@.buffer.len(), alignment as nat)));
            assert(self@ =~= old(self)@.aligned(alignment as nat));
        }
    }

    /// The length of the buffer written so far, header included.
    pub fn position(&self) -> (r: usize)
        ensures
            r == self@.buffer.len(),
    {
        self.buffer.len()
    }

    /// Appends `data` to the buffer as it is.
    pub fn write_unaligned(&mut self, data: &[u8])
        requires
            old(self)@.wf(),
        ensures
            final(self)@ == old(self)@.append(data@),
            final(self)@.wf(),
            old(self)@.extended_by(final(self)@),
    {
        let ghost start = self.buffer@;
        let mut i: usize = 0;
        while i < data.len()
            invariant
                i <= data.len(),
                self.buffer@ == start + data@.subrange(0, i as int),
                self.offsets == old(self).offsets,
                self.pointers == old(self).pointers,
                self.runtime_resource_ids == old(self).runtime_resource_ids,
                self.resource_ptrs == old(self).resource_ptrs,
                self.type_ids == old(self).type_ids,
                self.type_names == old(self).type_names,
                self.rrids_segment == old(self).rrids_segment,
                self.resource_ptrs_segment == old(self).resource_ptrs_segment,
            decreases data.len() - i,
        {
            self.buffer.push(data[i]);
            i = i + 1;
            assert(self.buffer@ =~= start + data@.subrange(0, i as int));
        }
        assert(data@.subrange(0, data@.len() as int) =~= data@);
        proof {
            lemma_append_wf(old(self)@, data@);
            assert(self@ =~= old(self)@.append(data@));
        }
    }

    /// Pads the buffer to `alignment`, then appends `data`.
    pub fn write_aligned(&mut self, data: &[u8], alignment: usize)
        requires
            old(self)@.wf(),
            alignment > 0,
        ensures
            final(self)@ == old(self)@.aligned(alignment as nat).append(data@),
            final(self)@.wf(),
            old(self)@.extended_by(final(self)@),
    {
        self.align_to(alignment);
        self.write_unaligned(data);
    }

    /// Appends the little-endian bytes of `v` that fit in `n` bytes.
    pub(crate) fn write_le(&mut self, v: u64, n: usize)
        requires
            old(self)@.wf(),
            n <= 8,
        ensures
            final(self)@ == old(self)@.append(le_bytes(v as nat, n as nat)),
            final(self)@.wf(),
            old(self)@.extended_by(final(self)@),
    {
        push_le_bytes(&mut self.buffer, v, n);
        proof {
            lemma_append_wf(old(self)@, le_bytes(v as nat, n as nat));
            assert(self@ =~= old(self)@.append(le_bytes(v as nat, n as nat)));
        }
    }

    /// Pads the buffer to 8 and writes a pointer holding `pointer_id`, to be
    /// patched into the pointee's offset when the serializer is finalised.
    pub fn write_pointer(&mut self, pointer_id: u64)
        requires
            old(self)@.wf(),
        ensures
            final(self)@.wf(),
            old(self)@.extended_by(final(self)@),
            final(self)@ == old(self)@.after_pointer(pointer_id),
    {
        self.align_to(8);
        let pos = self.buffer.len();
        let ghost before = self@;
        self.pointers.push(pos);
        push_le_bytes(&mut self.buffer, pointer_id, 8);
        proof {
            let v = self@;
            lemma_append_wf(old(self)@, zeros(padding_for(old(self)@.buffer.len(), 8)));
            lemma_prefix_append(before.buffer, le_bytes(pointer_id as nat, 8));
            assert(v.buffer =~= before.buffer + le_bytes(pointer_id as nat, 8));
            lemma_prefix_push(before.pointers, pos);
            lemma_extended_by_refl(before);
            lemma_extended_by_transitive(old(self)@, before, v);
            assert(v.buffer[6] == before.buffer[6]);
            assert(v.buffer.take(4) =~= before.buffer.take(4));
            assert forall|i: int, j: int|
                0 <= i < j < v.pointers.len() implies #[trigger] v.pointers[i] + 8
                <= #[trigger] v.pointers[j] by {
                if j < before.pointers.len() {
                    assert(before.pointers[i] + 8 <= before.pointers[j]);
                } else {
                    assert(before.pointers[i] + 8 <= before.buffer.len());
                }
            }
        }
    }

    /// Registers `pointer_id` as pointing at the current end of the buffer.
    pub fn register_pointee(&mut self, pointer_id: u64)
        requires
            old(self)@.wf(),
        ensures
            final(self)@ == (SerializerView {
                offsets: old(self)@.offsets.insert(
                    pointer_id,
                    (old(self)@.buffer.len() - 16) as u64,
                ),
                ..old(self)@
            }),
            final(self)@.wf(),
            old(self)@.extended_by(final(self)@),
    {
        let off = (self.buffer.len() - 16) as u64;
        self.offsets.insert(pointer_id, off);
        proof {
            lemma_extended_by_refl(old(self)@);
        }
    }

    /// Writes the pointee of `pointer_id`, unless one was registered already: pads
    /// to the data's alignment, registers the pointer there, writes the data,
    /// registers `end_pointer_id` (if any) just after it, then resolves the data.
    pub fn write_pointee<T: Bin1Serialize + ?Sized>(
        &mut self,
        pointer_id: u64,
        end_pointer_id: Option<u64>,
        data: &T,
    ) -> (r: Result<(), SerializeError>)
        requires
            old(self)@.wf(),
        ensures
            final(self)@.wf(),
            old(self)@.extended_by(final(self)@),
            old(self)@.offsets.contains_key(pointer_id) ==> final(self)@ == old(self)@ && r is Ok,
            r is Ok ==> final(self)@.offsets.contains_key(pointer_id),
            r is Ok && !old(self)@.offsets.contains_key(pointer_id) && end_pointer_id is Some
                ==> final(self)@.offsets.contains_key(
                end_pointer_id->0,
            ),
            !old(self)@.offsets.contains_key(pointer_id) ==> exists|
                written: SerializerView,
                r1: Result<(), SerializeError>,
            |
                #![trigger data.write_spec(
                    old(self)@.aligned(data.alignment_spec() as nat).registered(pointer_id),
                    written,
                    r1,
                )]
                data.write_spec(
                    old(self)@.aligned(data.alignment_spec() as nat).registered(pointer_id),
                    written,
                    r1,
                ) && old(self)@.extended_by(written) && written.wf() && (r1 is Err ==> final(self)@
                    == written && r == r1) && (r1 is Ok ==> with_end(written, end_pointer_id).extended_by(
                    final(self)@,
                ) && data.resolve_spec(with_end(written, end_pointer_id), final(self)@, r)),
            pointee_spec(
                |b: SerializerView, a: SerializerView, x: Result<(), SerializeError>|
                    data.write_spec(b, a, x),
                |b: SerializerView, a: SerializerView, x: Result<(), SerializeError>|
                    data.resolve_spec(b, a, x),
                data.alignment_spec() as nat,
                pointer_id,
                end_pointer_id,
                old(self)@,
                final(self)@,
                r,
            ),
    {
        if self.offsets.contains_key(&pointer_id) {
            proof {
                lemma_extended_by_refl(self@);
            }
            return Ok(());
        }
        let ghost start = self@;
        let alignment = data.alignment();
        self.align_to(alignment);
        self.register_pointee(pointer_id);
        let ghost registered = self@;
        proof {
            lemma_append_wf(start, zeros(padding_for(start.buffer.len(), alignment as nat)));
            lemma_extended_by_transitive(start, start.aligned(alignment as nat), registered);
        }
        let r1 = data.write(self);
        let ghost after_write = self@;
        proof {
            assert(registered == start.aligned(data.alignment_spec() as nat).registered(pointer_id));
            lemma_extended_by_transitive(start, registered, after_write);
            assert(data.write_spec(start.aligned(data.alignment_spec() as nat).registered(pointer_id), after_write, r1));
        }
        match r1 {
            Ok(()) => {},
            Err(e) => {
                proof {
                    let w = |b: SerializerView, a: SerializerView, x: Result<(), SerializeError>|
                        data.write_spec(b, a, x);
                    assert(w(start.aligned(data.alignment_spec() as nat).registered(pointer_id), after_write, r1));
                }
                return Err(e);
            },
        }
        if let Some(end_pointer_id) = end_pointer_id {
            self.register_pointee(end_pointer_id);
        }
        let ghost written = self@;
        proof {
            lemma_extended_by_transitive(start, registered, written);
        }
        let r = data.resolve(self);
        proof {
            lemma_extended_by_transitive(start, written, self@);
            lemma_extended_by_refl(written);
            assert(registered.offsets.dom().subset_of(written.offsets.dom()));
            assert(registered.offsets.contains_key(pointer_id));
            assert(written == with_end(after_write, end_pointer_id));
            assert(data.resolve_spec(with_end(after_write, end_pointer_id), self@, r));
            let w = |b: SerializerView, a: SerializerView, x: Result<(), SerializeError>|
                data.write_spec(b, a, x);
            assert(w(start.aligned(data.alignment_spec() as nat).registered(pointer_id), after_write, r1));
        }
        r
    }

    /// Pads the buffer to 8 and writes the index of `ty_name` among the type
    /// names, adding it to them if it is new.
    pub fn write_type(&mut self, ty_name: &str)
        requires
            old(self)@.wf(),
        ensures
            final(self)@.wf(),
            old(self)@.extended_by(final(self)@),
            final(self)@ == old(self)@.after_type(ty_name@),
    {
        self.align_to(8);
        let ghost a = self@;
        let pos = self.buffer.len();
        self.type_ids.push(pos);
        let name = ty_name.to_owned();
        let mut i: usize = 0;
        let n = self.type_names.len();
        let mut found = false;
        while i < n && !found
            invariant
                n == self.type_names.len(),
                i <= n,
                name@ == ty_name@,
                self.type_names@.map_values(|s: String| s@) == a.type_names,
                found ==> 0 < i && a.type_names[i - 1] == ty_name@,
                forall|k: int| 0 <= k < i - (if found { 1int } else { 0 }) ==> a.type_names[k] != ty_name@,
            decreases n - i,
        {
            proof {
                assert(a.type_names[i as int] == self.type_names@[i as int]@);
            }
            if self.type_names[i] == name {
                found = true;
            }
            i = i + 1;
        }
        if found {
            i = i - 1;
        }
        if found {
            proof {
                assert(a.type_names[i as int] == ty_name@);
                let j = choose|j: int| 0 <= j < a.type_names.len() && a.type_names[j] == ty_name@;
                if j != i {
                    if j < i {
                        assert(a.type_names[j] != a.type_names[i as int]);
                    } else {
                        assert(a.type_names[i as int] != a.type_names[j]);
                    }
                }
                assert(name_index(a.type_names, ty_name@) == Some(i as nat));
            }
            push_le_bytes(&mut self.buffer, i as u64, 8);
        } else {
            assert(name_index(a.type_names, ty_name@) is None);
            push_le_bytes(&mut self.buffer, n as u64, 8);
            self.type_names.push(name);
            proof {
                assert(self.type_names@.map_values(|s: String| s@) =~= a.type_names.push(
                    ty_name@,
                ));
            }
        }
        proof {
            assert(self@.buffer[6] == a.buffer[6]);
            assert(self@.buffer.take(4) =~= a.buffer.take(4));
            assert forall|i: int, j: int|
                0 <= i < j < self@.type_ids.len() implies #[trigger] self@.type_ids[i] + 8
                <= #[trigger] self@.type_ids[j] by {
                if j < a.type_ids.len() {
                    assert(a.type_ids[i] + 8 <= a.type_ids[j]);
                } else {
                    assert(a.type_ids[i] + 8 <= a.buffer.len());
                }
            }
            lemma_append_wf(old(self)@, zeros(padding_for(old(self)@.buffer.len(), 8)));
            let bytes = self@.buffer.subrange(a.buffer.len() as int, self@.buffer.len() as int);
            assert(self@.buffer =~= a.buffer + bytes);
            lemma_prefix_append(a.buffer, bytes);
            lemma_prefix_push(a.type_ids, pos);
            lemma_prefix_push(a.type_names, ty_name@);
            assert(a.type_names.is_prefix_of(self@.type_names)) by {
                assert(self@.type_names.subrange(0, a.type_names.len() as int) =~= a.type_names);
            }
            lemma_extended_by_transitive(old(self)@, a, self@);
        }
    }

    /// Patches every pointer with its pointee's offset, fills in the header and
    /// appends the segments: the rebased pointers, the type IDs and names, and, where
    /// enabled, the runtime resource IDs and the resource pointers.
    pub fn finalise(self) -> (r: Result<Vec<u8>, SerializeError>)
        requires
            self@.wf(),
            self@.pointers_resolved(),
            self@.fits_format(),
        ensures
            r matches Ok(bytes) && bytes@ == self@.finalised(),
    {
        let ghost v = self@;
        let Bin1Serializer {
            mut buffer,
            offsets,
            pointers,
            runtime_resource_ids,
            resource_ptrs,
            type_ids,
            type_names,
            rrids_segment,
            resource_ptrs_segment,
        } = self;
        patch_pointer_slots(&mut buffer, &pointers, &offsets, Ghost(v));
        let ghost patched = buffer@;
        let data_size = (buffer.len() - 16) as u32;
        set_be_u32(&mut buffer, 8, data_size);
        let ghost header = buffer@;
        let count = append_segments(
            &mut buffer,
            &pointers,
            &runtime_resource_ids,
            &resource_ptrs,
            &type_ids,
            &type_names,
            rrids_segment,
            resource_ptrs_segment,
            Ghost(v),
        );
        let ghost appended = buffer@;
        buffer.set(6, count);
        proof {
            assert(count as nat == v.segment_count());
            assert(header == splice(patched, 8, be_bytes((v.buffer.len() - 16) as nat, 4)));
            assert(appended =~= header + v.segments());
            assert(buffer@ =~= v.finalised());
        }
        Ok(buffer)
    }

    /// The first pointer slot whose ID is neither null nor registered, if any.
    fn first_unresolved_pointer(&self) -> (r: Option<u64>)
        requires
            self@.wf(),
        ensures
            r == self@.first_unresolved(),
    {
        let mut i: usize = 0;
        while i < self.pointers.len()
            invariant
                i <= self@.pointers.len(),
                self@.wf(),
                first_unresolved_in(self@.buffer, self@.pointers.take(i as int), self@.offsets) is None,
            decreases self@.pointers.len() - i,
        {
            let at = self.pointers[i];
            proof {
                assert(self@.pointers[i as int] + 8 <= self@.buffer.len());
                assert(self@.pointers.take(i + 1).drop_last() =~= self@.pointers.take(i as int));
            }
            let id = read_id(&self.buffer, at);
            proof {
                assert(self@.pointers.take(i + 1).last() == at);
            }
            if id != NULL_POINTER_ID && !self.offsets.contains_key(&id) {
                proof {
                    lemma_first_unresolved_prefix(self@.buffer, self@.pointers, self@.offsets, i + 1);
                }
                return Some(id);
            }
            i = i + 1;
        }
        proof {
            assert(self@.pointers.take(i as int) =~= self@.pointers);
        }
        None
    }

    /// Whether the sizes fit the format's 32-bit fields.
    fn check_fits_format(&self) -> (r: bool)
        ensures
            r == self@.fits_format(),
    {
        if self.buffer.len() > 0xFFFF_FFFF {
            return false;
        }
        let mut i: usize = 0;
        while i < self.type_names.len()
            invariant
                i <= self@.type_names.len(),
                self@.type_names == self.type_names@.map_values(|s: String| s@),
                forall|k: int| 0 <= k < i ==> encode_utf8(#[trigger] self@.type_names[k]).len()
                    < u32::MAX,
            decreases self@.type_names.len() - i,
        {
            let name = self.type_names[i].as_str();
            assert(self@.type_names[i as int] == self.type_names@[i as int]@);
            assert(name@ == self@.type_names[i as int]);
            let name_bytes = name.as_bytes();
            if name_bytes.len() >= 0xFFFF_FFFF {
                return false;
            }
            i = i + 1;
        }
        true
    }

    /// Finalises the file where every pointer holds the null pointer ID or a
    /// registered one and the sizes fit the format's 32-bit fields; fails otherwise,
    /// with the ID of the first unresolved pointer, or else as too large.
    pub fn try_finalise(self) -> (r: Result<Vec<u8>, SerializeError>)
        requires
            self@.wf(),
        ensures
            self@.first_unresolved() matches Some(id) ==> (r matches Err(
                SerializeError::UnresolvedPointer(x),
            ) && x == id),
            self@.first_unresolved() is None && !self@.fits_format() ==> (r matches Err(
                SerializeError::OutputTooLarge,
            )),
            self@.first_unresolved() is None && self@.fits_format() ==> (r matches Ok(bytes)
                && bytes@ == self@.finalised()),
    {
        if let Some(id) = self.first_unresolved_pointer() {
            return Err(SerializeError::UnresolvedPointer(id));
        }
        if !self.check_fits_format() {
            return Err(SerializeError::OutputTooLarge);
        }
        proof {
            lemma_first_unresolved_none(self@.buffer, self@.pointers, self@.offsets);
        }
        self.finalise()
    }

    /// Writes `value` as the root of the file and its pointees, then finalises.
    /// The header records the value's alignment, at most 8.
    pub fn serialize<T: Bin1Serialize + ?Sized>(self, value: &T) -> (r: Result<Vec<u8>, SerializeError>)
        requires
            self@.wf(),
        ensures
            exists|written: SerializerView, r1: Result<(), SerializeError>|
                #![trigger value.write_spec(self@.rooted(value.alignment_spec()), written, r1)]
                value.write_spec(self@.rooted(value.alignment_spec()), written, r1) && self@.rooted(
                    value.alignment_spec(),
                ).extended_by(written) && written.wf() && (r1 matches Err(e) ==> r == Err::<
                    Vec<u8>,
                    SerializeError,
                >(e)) && (r1 is Ok ==> exists|resolved: SerializerView, r2: Result<(), SerializeError>|
                    #![trigger value.resolve_spec(written, resolved, r2)]
                    value.resolve_spec(written, resolved, r2) && written.extended_by(resolved)
                        && resolved.wf() && (r2 matches Err(e) ==> r == Err::<Vec<u8>, SerializeError>(
                        e,
                    )) && (r2 is Ok ==> match resolved.finish_outcome() {
                        Ok(b) => r matches Ok(bytes) && bytes@ == b,
                        Err(e) => r == Err::<Vec<u8>, SerializeError>(e),
                    })),
            r matches Ok(bytes) ==> exists|w: SerializerView|
                #![trigger w.finalised()]
                w.wf() && w.pointers_resolved() && w.fits_format() && w.buffer[5] == (if value.alignment_spec()
                    < 8 {
                    value.alignment_spec()
                } else {
                    8
                }) && (SerializerView {
                    buffer: self@.buffer.update(5, w.buffer[5]),
                    ..self@
                }).extended_by(w) && bytes@ == w.finalised(),
    {
        let mut s = self;
        let alignment = value.alignment();
        let root_alignment = if alignment < 8 {
            alignment
        } else {
            8
        };
        let ghost start = s@;
        s.buffer.set(5, root_alignment as u8);
        proof {
            assert(s@ =~= (SerializerView {
                buffer: start.buffer.update(5, root_alignment as u8),
                ..start
            }));
            assert(s@.buffer.take(4) =~= start.buffer.take(4));
        }
        let ghost started = s@;
        proof {
            assert(started == start.rooted(value.alignment_spec()));
        }
        let r1 = value.write(&mut s);
        let ghost written = s@;
        proof {
            assert(value.write_spec(start.rooted(value.alignment_spec()), written, r1));
        }
        match r1 {
            Ok(()) => {},
            Err(e) => {
                return Err(e);
            },
        }
        let r2 = value.resolve(&mut s);
        let ghost resolved = s@;
        proof {
            assert(written.extended_by(s@));
            assert(value.resolve_spec(written, resolved, r2));
        }
        match r2 {
            Ok(()) => {},
            Err(e) => {
                return Err(e);
            },
        }
        proof {
            lemma_extended_by_transitive(started, written, s@);
            assert(s@.buffer[5] == root_alignment) by {
                assert(started.buffer.is_prefix_of(s@.buffer));
                assert(s@.buffer.subrange(0, started.buffer.len() as int)[5] == started.buffer[5]);
            }
            assert(started =~= (SerializerView {
                buffer: start.buffer.update(5, s@.buffer[5]),
                ..start
            }));
        }
        let ghost w = s@;
        let r = s.try_finalise();
        proof {
            lemma_first_unresolved_none(w.buffer, w.pointers, w.offsets);
            assert(written.extended_by(w));
            assert(w == resolved);
            assert(value.resolve_spec(written, resolved, r2));
        }
        r
    }

    /// Writes a runtime resource ID, recording its position.
    pub fn write_runtime_resource_id(&mut self, high: u32, low: u32)
        requires
            old(self)@.wf(),
        ensures
            final(self)@.wf(),
            old(self)@.extended_by(final(self)@),
            final(self)@ == (SerializerView {
                runtime_resource_ids: old(self)@.runtime_resource_ids.push(
                    old(self)@.buffer.len() as usize,
                ),
                ..old(self)@.append(le_bytes(high as nat, 4) + le_bytes(low as nat, 4))
            }),
    {
        let pos = self.buffer.len();
        self.runtime_resource_ids.push(pos);
        push_le_bytes(&mut self.buffer, high as u64, 4);
        push_le_bytes(&mut self.buffer, low as u64, 4);
        let end = self.buffer.len();
        proof {
            let bytes = le_bytes(high as nat, 4) + le_bytes(low as nat, 4);
            assert(self@.buffer =~= old(self)@.buffer + bytes);
            assert(end == self@.buffer.len());
            lemma_runtime_resource_id_recorded(old(self)@, bytes);
            assert(self@ =~= (SerializerView {
                runtime_resource_ids: old(self)@.runtime_resource_ids.push(old(self)@.buffer.len() as usize),
                ..old(self)@.append(bytes)
            }));
        }
    }

    /// Writes a resource pointer, recording its position.
    pub fn write_resource_ptr(&mut self, high: u32, low: u32)
        requires
            old(self)@.wf(),
        ensures
            final(self)@.wf(),
            old(self)@.extended_by(final(self)@),
            final(self)@ == (SerializerView {
                resource_ptrs: old(self)@.resource_ptrs.push(old(self)@.buffer.len() as usize),
                ..old(self)@.append(le_bytes(high as nat, 4) + le_bytes(low as nat, 4))
            }),
    {
        let pos = self.buffer.len();
        self.resource_ptrs.push(pos);
        push_le_bytes(&mut self.buffer, high as u64, 4);
        push_le_bytes(&mut self.buffer, low as u64, 4);
        let end = self.buffer.len();
        proof {
            let bytes = le_bytes(high as nat, 4) + le_bytes(low as nat, 4);
            assert(self@.buffer =~= old(self)@.buffer + bytes);
            assert(end == self@.buffer.len());
            lemma_resource_ptr_recorded(old(self)@, bytes);
            assert(self@ =~= (SerializerView {
                resource_ptrs: old(self)@.resource_ptrs.push(old(self)@.buffer.len() as usize),
                ..old(self)@.append(bytes)
            }));
        }
    }
}

/// Appending 8 bytes recorded as a runtime resource ID keeps a state well formed,
/// and the new state extends the old one, with or without the bytes appended.
pub proof fn lemma_runtime_resource_id_recorded(v: SerializerView, bytes: Seq<u8>)
    requires
        v.wf(),
        bytes.len() == 8,
        v.buffer.len() + 8 <= usize::MAX,
    ensures
        ({
            let w = SerializerView {
                runtime_resource_ids: v.runtime_resource_ids.push(v.buffer.len() as usize),
                ..v.append(bytes)
            };
            w.wf() && v.extended_by(w) && v.append(bytes).extended_by(w)
        }),
{
    let w = SerializerView {
        runtime_resource_ids: v.runtime_resource_ids.push(v.buffer.len() as usize),
        ..v.append(bytes)
    };
    lemma_append_wf(v, bytes);
    lemma_prefix_push(v.runtime_resource_ids, v.buffer.len() as usize);
    lemma_extended_by_refl(v.append(bytes));
    let before = v.runtime_resource_ids;
    let after = w.runtime_resource_ids;
    assert forall|i: int, j: int| 0 <= i < j < after.len() implies #[trigger] after[i] + 8
        <= #[trigger] after[j] by {
        if j < before.len() {
            assert(before[i] + 8 <= before[j]);
        } else {
            assert(before[i] + 8 <= v.buffer.len());
        }
    }
}

/// Appending 8 bytes recorded as a resource pointer keeps a state well formed, and
/// the new state extends the old one, with or without the bytes appended.
pub proof fn lemma_resource_ptr_recorded(v: SerializerView, bytes: Seq<u8>)
    requires
        v.wf(),
        bytes.len() == 8,
        v.buffer.len() + 8 <= usize::MAX,
    ensures
        ({
            let w = SerializerView {
                resource_ptrs: v.resource_ptrs.push(v.buffer.len() as usize),
                ..v.append(bytes)
            };
            w.wf() && v.extended_by(w) && v.append(bytes).extended_by(w)
        }),
{
    let w = SerializerView {
        resource_ptrs: v.resource_ptrs.push(v.buffer.len() as usize),
        ..v.append(bytes)
    };
    lemma_append_wf(v, bytes);
    lemma_prefix_push(v.resource_ptrs, v.buffer.len() as usize);
    lemma_extended_by_refl(v.append(bytes));
    let before = v.resource_ptrs;
    let after = w.resource_ptrs;
    assert forall|i: int, j: int| 0 <= i < j < after.len() implies #[trigger] after[i] + 8
        <= #[trigger] after[j] by {
        if j < before.len() {
            assert(before[i] + 8 <= before[j]);
        } else {
            assert(before[i] + 8 <= v.buffer.len());
        }
    }
}

/// Writing a type ID keeps a state well formed and extends it, where the buffer,
/// padded to 8 and with the index appended, fits in memory.
pub proof fn lemma_after_type_wf(v: SerializerView, name: Seq<char>)
    requires
        v.wf(),
        v.aligned(8).buffer.len() + 8 <= usize::MAX,
    ensures
        v.after_type(name).wf(),
        v.extended_by(v.after_type(name)),
        v.aligned(8).buffer.len() + 8 == v.after_type(name).buffer.len(),
{
    let a = v.aligned(8);
    let w = v.after_type(name);
    let bytes = le_bytes(a.type_index(name), 8);
    lemma_append_wf(v, zeros(padding_for(v.buffer.len(), 8)));
    lemma_append_wf(a, bytes);
    assert(w.buffer == a.append(bytes).buffer);
    assert(w.buffer[6] == a.buffer[6]);
    assert(w.buffer.take(4) =~= a.buffer.take(4));
    let pos = a.buffer.len() as usize;
    assert(pos == a.buffer.len());
    assert forall|i: int, j: int| 0 <= i < j < w.type_ids.len() implies #[trigger] w.type_ids[i] + 8
        <= #[trigger] w.type_ids[j] by {
        if j < a.type_ids.len() {
            assert(a.type_ids[i] + 8 <= a.type_ids[j]);
        } else {
            assert(a.type_ids[i] + 8 <= a.buffer.len());
        }
    }
    if name_index(a.type_names, name) is None {
        assert forall|i: int, j: int| 0 <= i < j < w.type_names.len() implies #[trigger] w.type_names[i]
            != #[trigger] w.type_names[j] by {
            if j < a.type_names.len() {
                assert(a.type_names[i] != a.type_names[j]);
            } else {
                assert(!(0 <= i < a.type_names.len() && a.type_names[i] == name));
            }
        }
    }
    lemma_prefix_append(a.buffer, bytes);
    lemma_prefix_push(a.type_ids, pos);
    lemma_prefix_push(a.type_names, name);
    assert(a.type_names.is_prefix_of(w.type_names)) by {
        assert(w.type_names.subrange(0, a.type_names.len() as int) =~= a.type_names);
    }
    assert(a.extended_by(w));
    lemma_extended_by_transitive(v, a, w);
}

} // verus!
