//! What the deserializer reads of what the serializer wrote.
use vstd::prelude::*;
use vstd::arithmetic::div_mod::{lemma_fundamental_div_mod, lemma_mod_multiples_basic};
use crate::bytes::{
    be_bytes, be_value, le_bytes, le_value, pow256, lemma_le_roundtrip, lemma_pow256_values,
};
use crate::de::{DeserializerView, HeaderFailure, TypeRead, bin1_magic, de_padding};
use crate::ser::{
    SerializerView, patch_pointers, splice, id_at, NULL_POINTER_ID, segment, positions_body,
    offset_entries, slots_ok, TYPE_IDS_SEGMENT_TAG, REBASE_SEGMENT_TAG, RESOURCE_IDS_SEGMENT_TAG,
    type_entries, type_entry, zeros, types_body, types_head, name_index, padding_for,
    lemma_append_wf, lemma_prefix_append, lemma_extended_by_transitive, lemma_after_pointer_wf,
    Aligned, Bin1Serialize, no_pointees,
};
use crate::de::{Bin1Deserialize, DeserializeError};
use crate::types::variant::TypeID;
use crate::types::array::TArrayRef::{De as ArrayRefDe, Ser as ArrayRefSer};
use crate::types::array::ZHMPtrLen::{De as PtrLenDe, Ser as PtrLenSer};
use crate::types::resource::WithoutFixup::{De as FixupFreeDe, ResourceID, Ser as FixupFreeSer};
use crate::types::array::{
    array_flags, tarray_write_spec, items_write_spec, written_in_order, read_in_order, tarray_elements,
    is_inline, inline_flags, inline_padding, INLINE_FLAG, START_ID_TAG, END_ID_TAG, aligned_word,
    fixed_read_in_order, fixed_read_fails, two_words, resolved_in_order, items_resolve_spec,
};
use crate::ser::SerializeError;
use vstd::utf8::{encode_utf8, decode_utf8, valid_utf8, encode_utf8_valid_utf8, encode_utf8_decode_utf8};

verus! {

/// Whether the byte at `x` lies outside every pointer slot of `pointers`.
pub open spec fn outside_slots(pointers: Seq<usize>, x: int) -> bool {
    forall|i: int| 0 <= i < pointers.len() ==> x < #[trigger] pointers[i] || pointers[i] + 8 <= x
}

/// Patching pointer slots leaves the length and every byte outside the slots as
/// they were.
proof fn lemma_patch_outside(buffer: Seq<u8>, pointers: Seq<usize>, offsets: Map<u64, u64>, x: int)
    requires
        forall|i: int| 0 <= i < pointers.len() ==> #[trigger] pointers[i] + 8 <= buffer.len(),
        0 <= x < buffer.len(),
        outside_slots(pointers, x),
    ensures
        patch_pointers(buffer, pointers, offsets).len() == buffer.len(),
        patch_pointers(buffer, pointers, offsets)[x] == buffer[x],
    decreases pointers.len(),
{
    if pointers.len() > 0 {
        let rest = pointers.drop_last();
        assert(forall|i: int| 0 <= i < rest.len() ==> #[trigger] rest[i] == pointers[i]);
        lemma_patch_outside(buffer, rest, offsets, x);
        let b = patch_pointers(buffer, rest, offsets);
        let at = pointers.last() as int;
        assert(x < pointers[pointers.len() - 1] || pointers[pointers.len() - 1] + 8 <= x);
        let id = id_at(b, at);
        if id != NULL_POINTER_ID {
            let bytes = le_bytes(offsets[id as u64] as nat, 8);
            let p = splice(b, at, bytes);
            assert(p.len() == b.len());
            if x < at {
                assert(p[x] == b.subrange(0, at)[x]);
            } else {
                assert(p[x] == b.subrange(at + 8, b.len() as int)[x - at - 8]);
            }
        }
    }
}

/// Finishing a file leaves every byte of the data section outside the pointer
/// slots as it was written.
pub proof fn lemma_finalised_keeps_data(v: SerializerView, x: int)
    requires
        v.wf(),
        16 <= x < v.buffer.len(),
        outside_slots(v.pointers, x),
    ensures
        v.finalised()[x] == v.buffer[x],
{
    lemma_patch_outside(v.buffer, v.pointers, v.offsets, x);
    let patched = patch_pointers(v.buffer, v.pointers, v.offsets);
    let header = patched.update(6, v.segment_count() as u8);
    let spliced = splice(header, 8, crate::bytes::be_bytes((v.buffer.len() - 16) as nat, 4));
    assert(spliced.len() == header.len());
    assert(spliced[x] == header.subrange(12, header.len() as int)[x - 12]);
    assert(v.finalised()[x] == spliced[x]);
}

/// Bytes written by a serializer are read back from the file that the serializer
/// finishes: where `bytes` were appended at the end of the data, any later state of
/// the serializer finishes a file in which a deserializer with its cursor at that
/// position can read as many bytes, and they are those bytes.
pub proof fn lemma_written_bytes_read_back(
    before: SerializerView,
    fin: SerializerView,
    bytes: Seq<u8>,
    de: DeserializerView,
)
    requires
        before.wf(),
        fin.wf(),
        before.append(bytes).extended_by(fin),
        de.data == fin.finalised(),
        de.pos == before.buffer.len(),
    ensures
        de.can_read(bytes.len()),
        de.bytes_at_cursor(bytes.len()) == bytes,
{
    let after = before.append(bytes);
    let n = bytes.len();
    let p = before.buffer.len() as int;
    assert(after.buffer.len() == p + n);
    assert(fin.buffer.len() >= p + n);
    assert(fin.finalised().len() >= fin.buffer.len()) by {
        lemma_patch_outside_len(fin);
    }
    assert forall|k: int| 0 <= k < n implies #[trigger] de.bytes_at_cursor(n)[k] == bytes[k] by {
        let x = p + k;
        assert forall|i: int| 0 <= i < fin.pointers.len() implies x < #[trigger] fin.pointers[i]
            || fin.pointers[i] + 8 <= x by {
            if i < before.pointers.len() {
                assert(fin.pointers.subrange(0, after.pointers.len() as int)[i] == fin.pointers[i]);
                assert(before.pointers[i] + 8 <= before.buffer.len());
            } else {
                assert(after.buffer.len() <= fin.pointers[i]);
            }
        }
        lemma_finalised_keeps_data(fin, x);
        assert(fin.buffer.subrange(0, after.buffer.len() as int)[x] == after.buffer[x]);
        assert(after.buffer[x] == bytes[k]);
    }
    assert(de.bytes_at_cursor(n) =~= bytes);
}

/// A value written by a serializer is read back from the file that the serializer
/// finishes: where `n` bytes of `value` were appended at the end of the data, any
/// later state of the serializer finishes a file in which a deserializer with its
/// cursor at that position can read `n` bytes, and they decode to `value`.
pub proof fn lemma_written_value_reads_back(
    before: SerializerView,
    fin: SerializerView,
    value: nat,
    n: nat,
    de: DeserializerView,
)
    requires
        before.wf(),
        fin.wf(),
        value < pow256(n),
        before.append(le_bytes(value, n)).extended_by(fin),
        de.data == fin.finalised(),
        de.pos == before.buffer.len(),
    ensures
        de.can_read(n),
        de.bytes_at_cursor(n) == le_bytes(value, n),
        le_value(de.bytes_at_cursor(n)) == value,
{
    lemma_le_roundtrip(value, n);
    lemma_written_bytes_read_back(before, fin, le_bytes(value, n), de);
}

/// Patching the pointer slots puts in slot `k` the offset registered for the ID
/// that it holds, or leaves it as it is where it holds the null pointer ID.
proof fn lemma_patch_slot(buffer: Seq<u8>, pointers: Seq<usize>, offsets: Map<u64, u64>, k: int)
    requires
        forall|i: int| 0 <= i < pointers.len() ==> #[trigger] pointers[i] + 8 <= buffer.len(),
        forall|i: int, j: int|
            0 <= i < j < pointers.len() ==> #[trigger] pointers[i] + 8 <= #[trigger] pointers[j],
        0 <= k < pointers.len(),
    ensures
        ({
            let at = pointers[k] as int;
            let id = id_at(buffer, at);
            patch_pointers(buffer, pointers, offsets).subrange(at, at + 8) == if id
                == NULL_POINTER_ID {
                buffer.subrange(at, at + 8)
            } else {
                le_bytes(offsets[id as u64] as nat, 8)
            }
        }),
    decreases pointers.len(),
{
    let rest = pointers.drop_last();
    assert(forall|i: int| 0 <= i < rest.len() ==> #[trigger] rest[i] == pointers[i]);
    lemma_patch_len(buffer, rest, offsets);
    let b = patch_pointers(buffer, rest, offsets);
    let n = pointers.len() - 1;
    let last = pointers[n] as int;
    let at = pointers[k] as int;
    lemma_pow256_values();
    if k == n {
        assert forall|x: int| at <= x < at + 8 implies #[trigger] b[x] == buffer[x] by {
            assert forall|i: int| 0 <= i < rest.len() implies x < #[trigger] rest[i] || rest[i]
                + 8 <= x by {
                assert(pointers[i] + 8 <= pointers[k]);
            }
            lemma_patch_outside(buffer, rest, offsets, x);
        }
        assert(b.subrange(at, at + 8) =~= buffer.subrange(at, at + 8));
        let id = id_at(b, at);
        if id != NULL_POINTER_ID {
            let bytes = le_bytes(offsets[id as u64] as nat, 8);
            let p = splice(b, at, bytes);
            assert(p.subrange(at, at + 8) =~= bytes);
        }
    } else {
        lemma_patch_slot(buffer, rest, offsets, k);
        assert(pointers[k] + 8 <= pointers[n]);
        let id = id_at(b, last);
        if id != NULL_POINTER_ID {
            let bytes = le_bytes(offsets[id as u64] as nat, 8);
            let p = splice(b, last, bytes);
            assert(p.subrange(at, at + 8) =~= b.subrange(at, at + 8));
        }
    }
}

/// Finishing a file changes no byte of the data section but by patching the
/// pointer slots.
proof fn lemma_finalised_patched(v: SerializerView, x: int)
    requires
        v.wf(),
        16 <= x < v.buffer.len(),
    ensures
        v.finalised().len() >= v.buffer.len(),
        v.finalised()[x] == patch_pointers(v.buffer, v.pointers, v.offsets)[x],
{
    lemma_patch_len(v.buffer, v.pointers, v.offsets);
    let patched = patch_pointers(v.buffer, v.pointers, v.offsets);
    let header = patched.update(6, v.segment_count() as u8);
    let spliced = splice(header, 8, crate::bytes::be_bytes((v.buffer.len() - 16) as nat, 4));
    assert(spliced.len() == header.len());
    assert(spliced[x] == header.subrange(12, header.len() as int)[x - 12]);
    assert(v.finalised()[x] == spliced[x]);
}

/// A pointer is read back as the offset of its pointee: where a pointer holding
/// `pointer_id` was written, any later state of the serializer finishes a file in
/// which a deserializer with its cursor at the pointer can read 8 bytes, and they
/// decode to the offset in the data section registered for that ID, or to the
/// null pointer ID where that was written.
pub proof fn lemma_pointer_reads_back(
    before: SerializerView,
    pointer_id: u64,
    fin: SerializerView,
    de: DeserializerView,
)
    requires
        before.wf(),
        fin.wf(),
        before.after_pointer(pointer_id).extended_by(fin),
        fin.buffer.len() <= usize::MAX,
        de.data == fin.finalised(),
        de.pos == before.aligned(8).buffer.len(),
    ensures
        de.can_read(8),
        le_value(de.bytes_at_cursor(8)) == if pointer_id == NULL_POINTER_ID {
            pointer_id as nat
        } else {
            fin.offsets[pointer_id] as nat
        },
{
    let a = before.aligned(8);
    let after = before.after_pointer(pointer_id);
    let p = a.buffer.len() as int;
    let k = a.pointers.len() as int;
    lemma_pow256_values();
    lemma_le_roundtrip(pointer_id as nat, 8);
    assert(after.pointers[k] == p);
    assert(fin.pointers.subrange(0, after.pointers.len() as int)[k] == fin.pointers[k]);
    assert(fin.pointers[k] == p);
    assert forall|i: int| 0 <= i < 8 implies #[trigger] fin.buffer.subrange(p, p + 8)[i]
        == le_bytes(pointer_id as nat, 8)[i] by {
        assert(fin.buffer.subrange(0, after.buffer.len() as int)[p + i] == after.buffer[p + i]);
        assert(after.buffer[p + i] == le_bytes(pointer_id as nat, 8)[i]);
    }
    assert(fin.buffer.subrange(p, p + 8) =~= le_bytes(pointer_id as nat, 8));
    assert(id_at(fin.buffer, p) == pointer_id);
    lemma_patch_slot(fin.buffer, fin.pointers, fin.offsets, k);
    let patched = patch_pointers(fin.buffer, fin.pointers, fin.offsets);
    lemma_patch_len(fin.buffer, fin.pointers, fin.offsets);
    assert forall|i: int| 0 <= i < 8 implies #[trigger] de.bytes_at_cursor(8)[i]
        == patched.subrange(p, p + 8)[i] by {
        lemma_finalised_patched(fin, p + i);
    }
    lemma_finalised_patched(fin, p);
    assert(de.bytes_at_cursor(8) =~= patched.subrange(p, p + 8));
    if pointer_id != NULL_POINTER_ID {
        lemma_le_roundtrip(fin.offsets[pointer_id] as nat, 8);
    }
}

proof fn lemma_patch_outside_len(v: SerializerView)
    requires
        v.wf(),
    ensures
        v.finalised().len() >= v.buffer.len(),
{
    lemma_patch_len(v.buffer, v.pointers, v.offsets);
}

proof fn lemma_patch_len(buffer: Seq<u8>, pointers: Seq<usize>, offsets: Map<u64, u64>)
    requires
        forall|i: int| 0 <= i < pointers.len() ==> #[trigger] pointers[i] + 8 <= buffer.len(),
    ensures
        patch_pointers(buffer, pointers, offsets).len() == buffer.len(),
    decreases pointers.len(),
{
    if pointers.len() > 0 {
        let rest = pointers.drop_last();
        assert(forall|i: int| 0 <= i < rest.len() ==> #[trigger] rest[i] == pointers[i]);
        lemma_patch_len(buffer, rest, offsets);
    }
}

/// The parts of a finished file: the data section with the segment count at byte 6
/// and the data size at bytes 8 to 11, then the segments.
proof fn lemma_finalised_layout(v: SerializerView)
    requires
        v.wf(),
    ensures
        v.finalised().len() == v.buffer.len() + v.segments().len(),
        v.finalised().subrange(0, 4) == bin1_magic(),
        v.finalised()[6] == v.segment_count() as u8,
        v.finalised().subrange(8, 12) == be_bytes((v.buffer.len() - 16) as nat, 4),
        v.finalised().skip(v.buffer.len() as int) == v.segments(),
{
    let patched = patch_pointers(v.buffer, v.pointers, v.offsets);
    lemma_patch_len(v.buffer, v.pointers, v.offsets);
    let header = patched.update(6, v.segment_count() as u8);
    let size = be_bytes((v.buffer.len() - 16) as nat, 4);
    let spliced = splice(header, 8, size);
    assert(spliced.len() == v.buffer.len());
    assert forall|x: int| 0 <= x < 4 implies #[trigger] patched[x] == v.buffer[x] by {
        lemma_patch_outside(v.buffer, v.pointers, v.offsets, x);
    }
    assert(v.buffer.take(4)[0] == v.buffer[0]);
    assert(v.finalised().subrange(0, 4) =~= bin1_magic()) by {
        assert forall|x: int| 0 <= x < 4 implies #[trigger] v.finalised().subrange(0, 4)[x]
            == bin1_magic()[x] by {
            assert(v.finalised()[x] == spliced[x]);
            assert(spliced[x] == header[x]);
            assert(v.buffer.take(4)[x] == v.buffer[x]);
        }
    }
    assert(v.finalised()[6] == spliced[6]);
    assert(v.finalised().subrange(8, 12) =~= size) by {
        assert forall|x: int| 0 <= x < 4 implies #[trigger] v.finalised().subrange(8, 12)[x]
            == size[x] by {
            assert(v.finalised()[8 + x] == spliced[8 + x]);
        }
    }
    assert(v.finalised().skip(v.buffer.len() as int) =~= v.segments());
}

/// A value written in 4 big-endian bytes is read back.
proof fn lemma_be_roundtrip(x: nat)
    requires
        x <= u32::MAX,
    ensures
        be_value(be_bytes(x, 4)) == x,
{
    lemma_pow256_values();
    lemma_le_roundtrip(x, 4);
    assert(be_bytes(x, 4).reverse() =~= le_bytes(x, 4));
}

/// Reading the fixed header of a finished file gives its segment count and the
/// size of its data section, and leaves the cursor at the data section.
proof fn lemma_header_prefix(v: SerializerView, de: DeserializerView)
    requires
        v.wf(),
        v.fits_format(),
        de.data == v.finalised(),
        de.pos == 0,
    ensures
        de.header_prefix() == Ok::<(DeserializerView, u8, u32), (DeserializerView, crate::de::HeaderFailure)>((
            de.at(16),
            v.segment_count() as u8,
            (v.buffer.len() - 16) as u32,
        )),
{
    lemma_finalised_layout(v);
    lemma_be_roundtrip((v.buffer.len() - 16) as nat);
    let d = de.data;
    assert(de.bytes_at_cursor(4) == d.subrange(0, 4));
    assert(de.at(6).bytes_at_cursor(1) =~= seq![d[6]]);
    assert(de.at(8).bytes_at_cursor(4) == d.subrange(8, 12));
    assert(de.after_read(4) == de.at(4));
    assert(de.at(6).after_read(1) == de.at(7));
    assert(de.at(8).after_read(4) == de.at(12));
}

/// Sorted 8-byte slots in the data section number at most an eighth of it.
proof fn lemma_slot_count(slots: Seq<usize>, len: nat)
    requires
        slots_ok(slots, len),
    ensures
        16 + 8 * slots.len() <= len || slots.len() == 0,
{
    if slots.len() > 0 {
        lemma_slot_lower(slots, len, slots.len() - 1);
    }
}

proof fn lemma_slot_lower(slots: Seq<usize>, len: nat, i: int)
    requires
        slots_ok(slots, len),
        0 <= i < slots.len(),
    ensures
        16 + 8 * i <= slots[i],
    decreases i,
{
    if i > 0 {
        lemma_slot_lower(slots, len, i - 1);
        assert(slots[i - 1] + 8 <= slots[i]);
    }
}

proof fn lemma_offset_entries_len(positions: Seq<usize>)
    ensures
        offset_entries(positions).len() == 4 * positions.len(),
    decreases positions.len(),
{
    if positions.len() > 0 {
        lemma_offset_entries_len(positions.drop_last());
    }
}

/// The body of a segment of positions of sorted slots fits its 32-bit size.
proof fn lemma_positions_body_len(slots: Seq<usize>, len: nat)
    requires
        slots_ok(slots, len),
        len <= u32::MAX,
    ensures
        positions_body(slots).len() == 4 + 4 * slots.len(),
        positions_body(slots).len() <= u32::MAX,
{
    lemma_offset_entries_len(slots);
    lemma_slot_count(slots, len);
    lemma_pow256_values();
}

/// Skipping a segment that is not the type IDs segment moves past it.
proof fn lemma_skip_segment(de: DeserializerView, tag: u32, body: Seq<u8>, remaining: nat)
    requires
        tag != TYPE_IDS_SEGMENT_TAG,
        body.len() <= u32::MAX,
        de.pos + 8 + body.len() <= de.data.len() <= u64::MAX,
        de.data.subrange(de.pos as int, de.pos + 8 + body.len()) == segment(tag, body),
    ensures
        de.skip_segments(remaining + 1) == de.at((de.pos + 8 + body.len()) as u64).skip_segments(
            remaining,
        ),
{
    lemma_pow256_values();
    lemma_le_roundtrip(tag as nat, 4);
    lemma_le_roundtrip(body.len(), 4);
    let seg = segment(tag, body);
    assert(de.bytes_at_cursor(4) =~= seg.subrange(0, 4));
    assert(seg.subrange(0, 4) =~= le_bytes(tag as nat, 4));
    let v1 = de.after_read(4);
    assert(v1.bytes_at_cursor(4) =~= seg.subrange(4, 8));
    assert(seg.subrange(4, 8) =~= le_bytes((body.len() as u32) as nat, 4));
}

/// Skipping segments stops at the type IDs segment's tag, just after it.
proof fn lemma_find_types(de: DeserializerView, remaining: nat)
    requires
        de.pos + 4 <= de.data.len(),
        de.data.subrange(de.pos as int, de.pos + 4) == le_bytes(TYPE_IDS_SEGMENT_TAG as nat, 4),
    ensures
        de.skip_segments(remaining + 1) == Ok::<(DeserializerView, bool), (DeserializerView, crate::de::HeaderFailure)>((de.at((de.pos + 4) as u64), true)),
{
    lemma_pow256_values();
    lemma_le_roundtrip(TYPE_IDS_SEGMENT_TAG as nat, 4);
}

/// The rebase segment of a finished file, empty where there is none.
pub open spec fn rebase_part(v: SerializerView) -> Seq<u8> {
    if v.has_rebase_segment() {
        segment(REBASE_SEGMENT_TAG, positions_body(v.pointers))
    } else {
        Seq::empty()
    }
}

/// What follows position `p` of `d`, split into `a` and `b`.
proof fn lemma_skip_split(d: Seq<u8>, p: int, a: Seq<u8>, b: Seq<u8>)
    requires
        0 <= p <= d.len(),
        d.skip(p) == a + b,
    ensures
        d.len() == p + a.len() + b.len(),
        d.subrange(p, p + a.len()) == a,
        d.skip(p + a.len()) == b,
{
    assert(d.skip(p).len() == d.len() - p);
    assert(d.subrange(p, p + a.len()) =~= (a + b).subrange(0, a.len() as int));
    assert(d.skip(p + a.len()) =~= (a + b).skip(a.len() as int));
}

/// Skipping a segment, given as what follows the cursor.
proof fn lemma_skip_front(de: DeserializerView, tag: u32, body: Seq<u8>, rest: Seq<u8>, remaining: nat)
    requires
        tag != TYPE_IDS_SEGMENT_TAG,
        body.len() <= u32::MAX,
        de.pos <= de.data.len() <= u64::MAX,
        de.data.skip(de.pos as int) == segment(tag, body) + rest,
    ensures
        de.skip_segments(remaining + 1) == de.at((de.pos + 8 + body.len()) as u64).skip_segments(
            remaining,
        ),
        de.at((de.pos + 8 + body.len()) as u64).data.skip(de.pos + 8 + body.len()) == rest,
{
    let seg = segment(tag, body);
    assert(seg.len() == 8 + body.len());
    lemma_skip_split(de.data, de.pos as int, seg, rest);
    lemma_skip_segment(de, tag, body, remaining);
}

/// Finding the type IDs segment, given as what follows the cursor.
proof fn lemma_find_front(de: DeserializerView, rest: Seq<u8>, remaining: nat)
    requires
        de.pos <= de.data.len(),
        de.data.skip(de.pos as int) == le_bytes(TYPE_IDS_SEGMENT_TAG as nat, 4) + rest,
    ensures
        de.skip_segments(remaining + 1) == Ok::<(DeserializerView, bool), (DeserializerView, crate::de::HeaderFailure)>((de.at((de.pos + 4) as u64), true)),
{
    lemma_pow256_values();
    let t = le_bytes(TYPE_IDS_SEGMENT_TAG as nat, 4);
    lemma_skip_split(de.data, de.pos as int, t, rest);
    lemma_find_types(de, remaining);
}

/// Skipping the segments of a finished file from the end of its data section
/// stops just after the type IDs segment's tag, or, where there is no such
/// segment, goes through all of them without finding it.
#[verifier::spinoff_prover]
#[verifier::rlimit(100)]
proof fn lemma_skip_to_types(v: SerializerView, de: DeserializerView)
    requires
        slots_ok(v.pointers, v.buffer.len()),
        slots_ok(v.runtime_resource_ids, v.buffer.len()),
        slots_ok(v.resource_ptrs, v.buffer.len()),
        v.buffer.len() <= u32::MAX,
        v.buffer.len() <= de.data.len() <= u64::MAX,
        de.data.skip(v.buffer.len() as int) == v.segments(),
        de.pos == v.buffer.len(),
    ensures
        v.has_types_segment() ==> de.skip_segments(v.segment_count()) == Ok::<(DeserializerView, bool), (DeserializerView, crate::de::HeaderFailure)>((
            de.at((v.buffer.len() + rebase_part(v).len() + 4) as u64),
            true,
        )),
        !v.has_types_segment() ==> (de.skip_segments(v.segment_count()) matches Ok((w, false)) && w
            == de.at(w.pos)),
{
    lemma_positions_body_len(v.pointers, v.buffer.len());
    lemma_positions_body_len(v.runtime_resource_ids, v.buffer.len());
    lemma_positions_body_len(v.resource_ptrs, v.buffer.len());
    let r = rebase_part(v);
    let t = if v.has_types_segment() {
        segment(TYPE_IDS_SEGMENT_TAG, crate::ser::types_body(v.type_ids, v.type_names))
    } else {
        Seq::empty()
    };
    let x = if v.has_rrids_segment() {
        segment(RESOURCE_IDS_SEGMENT_TAG, positions_body(v.runtime_resource_ids))
    } else {
        Seq::empty()
    };
    let y = if v.has_resource_ptrs_segment() {
        segment(RESOURCE_IDS_SEGMENT_TAG, positions_body(v.resource_ptrs))
    } else {
        Seq::empty()
    };
    let after_r = t + x + y;
    assert(v.segments() =~= r + after_r);
    let de_r = de.at((v.buffer.len() + r.len()) as u64);
    let c1 = if v.has_rebase_segment() {
        (v.segment_count() - 1) as nat
    } else {
        v.segment_count()
    };
    if v.has_rebase_segment() {
        lemma_skip_front(de, REBASE_SEGMENT_TAG, positions_body(v.pointers), after_r, c1);
    } else {
        assert(de_r == de);
        assert(r + after_r =~= after_r);
    }
    assert(de_r.data.skip(de_r.pos as int) == after_r);
    if v.has_types_segment() {
        let body = crate::ser::types_body(v.type_ids, v.type_names);
        let tail = le_bytes((body.len() as u32) as nat, 4) + body + x + y;
        assert(after_r =~= le_bytes(TYPE_IDS_SEGMENT_TAG as nat, 4) + tail);
        lemma_find_front(de_r, tail, (c1 - 1) as nat);
    } else {
        let after_x = y;
        assert(after_r =~= x + y);
        let de_x = de_r.at((de_r.pos + x.len()) as u64);
        let c2 = if v.has_rrids_segment() {
            (c1 - 1) as nat
        } else {
            c1
        };
        if v.has_rrids_segment() {
            lemma_skip_front(de_r, RESOURCE_IDS_SEGMENT_TAG, positions_body(v.runtime_resource_ids), y, c2);
        } else {
            assert(de_x == de_r);
            assert(x + y =~= y);
        }
        assert(de_x.data.skip(de_x.pos as int) == y);
        if v.has_resource_ptrs_segment() {
            assert(y =~= y + Seq::<u8>::empty());
            lemma_skip_front(de_x, RESOURCE_IDS_SEGMENT_TAG, positions_body(v.resource_ptrs), Seq::empty(), 0);
        }
    }
}

/// The type names, by their index.
pub open spec fn names_map(names: Seq<Seq<char>>) -> Map<u32, Seq<char>> {
    Map::new(|i: u32| (i as int) < names.len(), |i: u32| names[i as int])
}

/// The entries of the first type names are the start of the entries of all of them.
proof fn lemma_type_entries_prefix(names: Seq<Seq<char>>, start: nat, j: int)
    requires
        0 <= j <= names.len(),
    ensures
        type_entries(names.take(j), start).is_prefix_of(type_entries(names, start)),
    decreases names.len(),
{
    if j == names.len() {
        assert(names.take(j) =~= names);
        assert(type_entries(names, start).subrange(0, type_entries(names, start).len() as int)
            =~= type_entries(names, start));
    } else {
        let shorter = names.drop_last();
        lemma_type_entries_prefix(shorter, start, j);
        assert(shorter.take(j) =~= names.take(j));
        let a = type_entries(names.take(j), start);
        let b = type_entries(shorter, start);
        let c = type_entries(names, start);
        assert(c.subrange(0, b.len() as int) =~= b);
        assert(c.subrange(0, a.len() as int) =~= b.subrange(0, a.len() as int));
    }
}

/// The entries of the first `j + 1` names are those of the first `j`, padding and
/// the entry of name `j`.
proof fn lemma_type_entries_step(names: Seq<Seq<char>>, start: nat, j: int)
    requires
        0 <= j < names.len(),
    ensures
        type_entries(names.take(j + 1), start) == type_entries(names.take(j), start) + zeros(
            ((4 - (start + type_entries(names.take(j), start).len()) % 4) % 4) as nat,
        ) + type_entry(j as nat, encode_utf8(names[j])),
{
    assert(names.take(j + 1).drop_last() =~= names.take(j));
    assert(names.take(j + 1).last() == names[j]);
}

proof fn lemma_rel_mod(x: u64)
    ensures
        ((x as u64) as usize) % 4 == x % 4,
{
    assert(((x as u64) as usize) % 4 == x % 4) by (bit_vector);
}

/// Reading one type name entry, given as what follows the cursor.
proof fn lemma_entry_step(
    de: DeserializerView,
    start: u64,
    pad: nat,
    j: nat,
    name: Seq<char>,
    more: Seq<u8>,
    remaining: nat,
)
    requires
        start <= de.pos <= de.data.len(),
        de.data.len() <= usize::MAX,
        pad == (4 - ((de.pos - start) as int) % 4) % 4,
        j <= u32::MAX,
        encode_utf8(name).len() < u32::MAX,
        de.data.skip(de.pos as int) == zeros(pad) + type_entry(j, encode_utf8(name)) + more,
    ensures
        de.type_entries_read(start, remaining + 1) == (DeserializerView {
            pos: (de.pos + pad + 12 + encode_utf8(name).len() + 1) as u64,
            type_names: de.type_names.insert(j as u32, name),
            ..de
        }).type_entries_read(start, remaining),
{
    let enc = encode_utf8(name);
    let entry = type_entry(j, enc);
    lemma_pow256_values();
    lemma_le_roundtrip(j, 4);
    lemma_le_roundtrip((enc.len() + 1) as nat, 4);
    lemma_rel_mod((de.pos - start) as u64);
    assert(((de.pos - start) as u64) as usize == ((de.pos - start) as u64) as usize);
    let p = de.pos as int;
    assert(zeros(pad) + type_entry(j, encode_utf8(name)) + more =~= zeros(pad) + (entry + more));
    lemma_skip_split(de.data, p, zeros(pad), entry + more);
    lemma_skip_split(de.data, p + pad, entry, more);
    let d = de.data;
    let q = p + pad;
    assert(d.subrange(q, q + 4) =~= entry.subrange(0, 4));
    assert(entry.subrange(0, 4) =~= le_bytes((j as u32) as nat, 4));
    assert(d.subrange(q + 8, q + 12) =~= entry.subrange(8, 12));
    assert(entry.subrange(8, 12) =~= le_bytes((enc.len() + 1) as nat, 4));
    assert(d.subrange(q + 12, q + 12 + enc.len()) =~= entry.subrange(12, 12 + enc.len() as int));
    assert(entry.subrange(12, 12 + enc.len() as int) =~= enc);
    encode_utf8_valid_utf8(name);
    encode_utf8_decode_utf8(name);
    let v1 = de.at(q as u64);
    assert(v1.bytes_at_cursor(4) == d.subrange(q, q + 4));
    let v3 = de.at((q + 8) as u64);
    assert(v3.bytes_at_cursor(4) == d.subrange(q + 8, q + 12));
}

/// What follows the entries of the first `j` names, where all the entries lie at
/// `base`.
#[verifier::spinoff_prover]
#[verifier::rlimit(40)]
proof fn lemma_entries_layout(d: Seq<u8>, names: Seq<Seq<char>>, head_len: nat, base: int, j: int)
    requires
        0 <= j < names.len(),
        0 <= base,
        base + type_entries(names, head_len).len() <= d.len(),
        d.skip(base).take(type_entries(names, head_len).len() as int) == type_entries(names, head_len),
    ensures
        d.skip(base + type_entries(names.take(j), head_len).len()) == zeros(
            ((4 - (head_len + type_entries(names.take(j), head_len).len()) % 4) % 4) as nat,
        ) + type_entry(j as nat, encode_utf8(names[j])) + (type_entries(names, head_len).skip(
            type_entries(names.take(j + 1), head_len).len() as int,
        ) + d.skip(base + type_entries(names, head_len).len())),
{
    let all = type_entries(names, head_len);
    let ej = type_entries(names.take(j), head_len);
    let ej1 = type_entries(names.take(j + 1), head_len);
    lemma_type_entries_step(names, head_len, j);
    lemma_type_entries_prefix(names, head_len, j + 1);
    let pad = ((4 - (head_len + ej.len()) % 4) % 4) as nat;
    let entry = type_entry(j as nat, encode_utf8(names[j]));
    let rest = d.skip(base + all.len());
    let tail = all.skip(ej1.len() as int);
    assert(d.skip(base) =~= all + rest) by {
        assert(d.skip(base).take(all.len() as int) == all);
    }
    assert(all =~= ej1 + tail) by {
        assert(all.subrange(0, ej1.len() as int) == ej1);
    }
    assert(d.skip(base) =~= ej + (zeros(pad) + entry + (tail + rest)));
    lemma_skip_split(d, base, ej, zeros(pad) + entry + (tail + rest));
}

proof fn lemma_pad_eq(h: int, e: int)
    requires
        h % 4 == 0,
        h >= 0,
        e >= 0,
    ensures
        (4 - (h + e) % 4) % 4 == (4 - (4 + e) % 4) % 4,
{
    assert((h + e) % 4 == e % 4) by (nonlinear_arith)
        requires
            h % 4 == 0,
            h >= 0,
            e >= 0,
    ;
    assert((4 + e) % 4 == e % 4) by (nonlinear_arith)
        requires
            e >= 0,
    ;
}

/// Reading the type name entries from the `j`-th on records all the names by
/// their indices.
#[verifier::spinoff_prover]
#[verifier::rlimit(60)]
proof fn lemma_entries_read(
    de: DeserializerView,
    names: Seq<Seq<char>>,
    head_len: nat,
    start: u64,
    base: int,
    j: int,
)
    requires
        0 <= j <= names.len(),
        names.len() <= u32::MAX,
        head_len % 4 == 0,
        base == start + 4,
        base + type_entries(names, head_len).len() <= de.data.len() <= usize::MAX,
        de.data.skip(base).take(type_entries(names, head_len).len() as int) == type_entries(names, head_len),
        forall|i: int| 0 <= i < names.len() ==> encode_utf8(#[trigger] names[i]).len() < u32::MAX,
        de.pos == base + type_entries(names.take(j), head_len).len(),
        de.type_names == names_map(names.take(j)),
    ensures
        de.type_entries_read(start, (names.len() - j) as nat) == Ok::<DeserializerView, (DeserializerView, crate::de::HeaderFailure)>(DeserializerView {
            pos: (base + type_entries(names, head_len).len()) as u64,
            type_names: names_map(names),
            ..de
        }),
    decreases names.len() - j,
{
    let all = type_entries(names, head_len);
    if j == names.len() {
        assert(names.take(j) =~= names);
        assert(de == DeserializerView {
            pos: (base + all.len()) as u64,
            type_names: names_map(names),
            ..de
        });
    } else {
        let ej = type_entries(names.take(j), head_len);
        let ej1 = type_entries(names.take(j + 1), head_len);
        lemma_type_entries_step(names, head_len, j);
        lemma_type_entries_prefix(names, head_len, j + 1);
        let pad = ((4 - (head_len + ej.len()) % 4) % 4) as nat;
        let enc = encode_utf8(names[j]);
        let more = all.skip(ej1.len() as int) + de.data.skip(base + all.len());
        lemma_entries_layout(de.data, names, head_len, base, j);
        assert(de.pos - start == 4 + ej.len());
        lemma_pad_eq(head_len as int, ej.len() as int);
        lemma_entry_step(de, start, pad, j as nat, names[j], more, (names.len() - j - 1) as nat);
        let next = DeserializerView {
            pos: (de.pos + pad + 12 + enc.len() + 1) as u64,
            type_names: de.type_names.insert(j as u32, names[j]),
            ..de
        };
        assert(next.pos == base + ej1.len());
        assert(next.type_names =~= names_map(names.take(j + 1)));
        lemma_entries_read(next, names, head_len, start, base, j + 1);
    }
}

/// Reading the type IDs segment, from just after its tag, records every type name
/// by its index.
#[verifier::spinoff_prover]
proof fn lemma_types_segment_read(
    de: DeserializerView,
    type_ids: Seq<usize>,
    names: Seq<Seq<char>>,
    more: Seq<u8>,
)
    requires
        names.len() <= type_ids.len() < 0x2000_0000,
        forall|i: int| 0 <= i < names.len() ==> encode_utf8(#[trigger] names[i]).len() < u32::MAX,
        de.pos <= de.data.len() <= usize::MAX,
        de.data.skip(de.pos as int) == le_bytes(
            (types_body(type_ids, names).len() as u32) as nat,
            4,
        ) + types_body(type_ids, names) + more,
        de.type_names == Map::<u32, Seq<char>>::empty(),
    ensures
        de.type_ids_segment_read() == Ok::<DeserializerView, (DeserializerView, HeaderFailure)>(DeserializerView {
            pos: (de.pos + 4 + types_body(type_ids, names).len()) as u64,
            type_names: names_map(names),
            ..de
        }),
{
    lemma_pow256_values();
    let k = type_ids.len() as int;
    let n = names.len() as int;
    let body = types_body(type_ids, names);
    let head = types_head(type_ids, names);
    let all = type_entries(names, head.len());
    lemma_offset_entries_len(type_ids);
    assert(head.len() == 8 + 4 * k);
    let size = le_bytes((body.len() as u32) as nat, 4);
    assert(size.len() == 4);
    let b = de.pos + 4;
    assert(de.data.skip(de.pos as int) =~= size + (body + more));
    lemma_skip_split(de.data, de.pos as int, size, body + more);
    assert(body + more =~= head + (all + more));
    lemma_skip_split(de.data, b, head, all + more);
    lemma_skip_split(de.data, b + head.len(), all, more);
    lemma_le_roundtrip(k as nat, 4);
    lemma_le_roundtrip(n as nat, 4);
    let v1 = de.at(b as u64);
    assert(v1.bytes_at_cursor(4) =~= head.subrange(0, 4));
    assert(head.subrange(0, 4) =~= le_bytes((k as u32) as nat, 4));
    let v3 = de.at((b + 4 + 4 * k) as u64);
    assert(v3.bytes_at_cursor(4) =~= head.subrange(4 + 4 * k, 8 + 4 * k));
    assert(head.subrange(4 + 4 * k, 8 + 4 * k) =~= le_bytes((n as u32) as nat, 4));
    let v4 = de.at((b + 8 + 4 * k) as u64);
    assert(names.take(0) =~= Seq::<Seq<char>>::empty());
    assert(type_entries(names.take(0), head.len()) =~= Seq::<u8>::empty());
    assert(names_map(names.take(0)) =~= Map::<u32, Seq<char>>::empty());
    assert(de.data.skip(b + head.len()).take(all.len() as int) =~= all);
    lemma_entries_read(v4, names, head.len(), v3.pos, b + head.len(), 0);
    assert(names.len() - 0 == n);
}

/// Reading the header of a finished file gives back the type names that the
/// serializer wrote, each under its index, and leaves the cursor at the start of
/// the data section.
#[verifier::spinoff_prover]
#[verifier::rlimit(100)]
pub proof fn lemma_header_reads_back(v: SerializerView, de: DeserializerView)
    requires
        v.wf(),
        v.fits_format(),
        de.data == v.finalised(),
        de.data.len() <= usize::MAX,
        de.pos == 0,
        de.type_names == Map::<u32, Seq<char>>::empty(),
    ensures
        de.header_read() == (DeserializerView { pos: 16, type_names: names_map(v.type_names), ..de }, None::<HeaderFailure>),
{
    lemma_header_prefix(v, de);
    lemma_finalised_layout(v);
    let l = v.buffer.len() as int;
    let de_l = de.at(l as u64);
    assert(slots_ok(v.pointers, v.buffer.len()));
    lemma_skip_to_types(v, de_l);
    lemma_slot_count(v.type_ids, v.buffer.len());
    assert(slots_ok(v.type_ids, v.buffer.len()));
    if v.has_types_segment() {
        let r = rebase_part(v);
        let body = types_body(v.type_ids, v.type_names);
        let x = if v.has_rrids_segment() {
            segment(RESOURCE_IDS_SEGMENT_TAG, positions_body(v.runtime_resource_ids))
        } else {
            Seq::empty()
        };
        let y = if v.has_resource_ptrs_segment() {
            segment(RESOURCE_IDS_SEGMENT_TAG, positions_body(v.resource_ptrs))
        } else {
            Seq::empty()
        };
        let more = x + y;
        let tail = le_bytes((body.len() as u32) as nat, 4) + body + more;
        assert(v.segments() =~= r + (le_bytes(TYPE_IDS_SEGMENT_TAG as nat, 4) + tail));
        lemma_skip_split(de.data, l, r, le_bytes(TYPE_IDS_SEGMENT_TAG as nat, 4) + tail);
        lemma_skip_split(de.data, l + r.len(), le_bytes(TYPE_IDS_SEGMENT_TAG as nat, 4), tail);
        let de_t = de.at((l + r.len() + 4) as u64);
        assert forall|i: int| 0 <= i < v.type_names.len() implies encode_utf8(
            #[trigger] v.type_names[i],
        ).len() < u32::MAX by {
        }
        lemma_types_segment_read(de_t, v.type_ids, v.type_names, more);
    } else {
        assert(v.type_names.len() == 0);
        assert(names_map(v.type_names) =~= Map::<u32, Seq<char>>::empty());
    }
}

/// After padding to 8, the data section's length is a multiple of 8.
proof fn lemma_aligned_8(v: SerializerView)
    requires
        v.buffer.len() >= 16,
    ensures
        (v.aligned(8).buffer.len() - 16) % 8 == 0,
        v.aligned(8).buffer.len() >= v.buffer.len(),
{
    let len = v.buffer.len();
    let p = padding_for(len, 8);
    assert(((len - 16) + p) % 8 == 0) by (nonlinear_arith)
        requires
            p == (8 - ((len - 16) as nat % 8)) % 8,
            len >= 16,
    ;
}

/// A cursor at a multiple of 8 in the data section needs no padding to align to 8.
proof fn lemma_no_padding(pos: u64)
    requires
        pos >= 16,
        (pos - 16) % 8 == 0,
        pos <= usize::MAX,
    ensures
        de_padding(pos, 8) == 0,
{
    let rel = pos.wrapping_sub(16);
    assert(rel == pos - 16);
    assert((rel as usize) == rel);
}

/// A type ID written by a serializer reads back as its name: where a serializer
/// wrote the type name `name`, a deserializer of any file finished from a later
/// state, holding that file's type names by their indices, reads `name` with its
/// cursor at the start of that write.
pub proof fn lemma_type_id_reads_back(
    before: SerializerView,
    name: Seq<char>,
    fin: SerializerView,
    de: DeserializerView,
)
    requires
        before.wf(),
        fin.wf(),
        fin.fits_format(),
        before.after_type(name).extended_by(fin),
        de.data == fin.finalised(),
        de.data.len() <= usize::MAX,
        de.pos == before.aligned(8).buffer.len(),
        de.type_names == names_map(fin.type_names),
    ensures
        de.can_read(8),
        de.type_read() == (de.after_read(8), TypeRead::Name(name)),
{
    let a = before.aligned(8);
    let after = before.after_type(name);
    let index = a.type_index(name);
    lemma_append_wf(before, zeros(padding_for(before.buffer.len(), 8)));
    lemma_aligned_8(before);
    let written = a.append(le_bytes(index, 8));
    assert(written.extended_by(fin)) by {
        assert(after.buffer == written.buffer);
        assert(a.type_ids.is_prefix_of(after.type_ids)) by {
            assert(after.type_ids.subrange(0, a.type_ids.len() as int) =~= a.type_ids);
        }
        assert(a.type_names.is_prefix_of(after.type_names)) by {
            assert(after.type_names.subrange(0, a.type_names.len() as int) =~= a.type_names);
        }
        assert(fin.type_ids.subrange(0, a.type_ids.len() as int) =~= after.type_ids.subrange(
            0,
            a.type_ids.len() as int,
        ));
        assert(fin.type_names.subrange(0, a.type_names.len() as int) =~= after.type_names.subrange(
            0,
            a.type_names.len() as int,
        ));
    }
    lemma_slot_count(fin.type_ids, fin.buffer.len());
    assert(slots_ok(fin.type_ids, fin.buffer.len()));
    assert(index <= a.type_names.len());
    assert(after.type_names.len() <= fin.type_names.len());
    assert(fin.type_ids.len() >= after.type_ids.len());
    lemma_pow256_values();
    assert(index < pow256(8));
    lemma_written_value_reads_back(a, fin, index, 8, de);
    lemma_no_padding(de.pos);
    assert(de.after_align(8) == de);
    assert(index < after.type_names.len());
    assert(after.type_names[index as int] == name) by {
        if name_index(a.type_names, name) is Some {
            let i = choose|i: int| 0 <= i < a.type_names.len() && a.type_names[i] == name;
            assert(index == i);
        }
    }
    assert(fin.type_names[index as int] == after.type_names[index as int]) by {
        assert(fin.type_names.subrange(0, after.type_names.len() as int)[index as int]
            == after.type_names[index as int]);
    }
    assert((index as u64) as u32 == index);
    assert(names_map(fin.type_names).contains_key(index as u32));
}

/// Padding to 8 adds nothing where the data section is a multiple of 8 long.
proof fn lemma_aligned_noop(v: SerializerView)
    requires
        v.buffer.len() >= 16,
        (v.buffer.len() - 16) % 8 == 0,
    ensures
        v.aligned(8) == v,
{
    assert(padding_for(v.buffer.len(), 8) == 0);
    assert(v.aligned(8).buffer =~= v.buffer);
    assert(v.aligned(8) =~= v);
}

/// An empty vector reads back as an empty vector: where a serializer, with the data
/// section a multiple of 8 long, wrote an empty vector, any later state of the
/// serializer finishes a file in which reading a vector with the cursor where the
/// vector was written gives an empty vector and moves the cursor past its 24 bytes.
pub proof fn lemma_empty_vec_reads_back<T: Bin1Serialize + Aligned + Bin1Deserialize>(
    v: Vec<T>,
    before: SerializerView,
    written: SerializerView,
    w: Result<(), SerializeError>,
    fin: SerializerView,
    de: DeserializerView,
    after: DeserializerView,
    r: Result<Vec<T>, DeserializeError>,
)
    requires
        v@.len() == 0,
        before.wf(),
        (before.buffer.len() - 16) % 8 == 0,
        v.write_spec(before, written, w),
        written.extended_by(fin),
        reads_file(fin, de),
        de.pos == before.buffer.len(),
        Vec::<T>::read_spec(de, after, r),
    ensures
        w is Ok,
        r matches Ok(u) && u@.len() == 0,
        after.pos == de.pos + 24,
{
    let address = choose|address: u64|
        #![trigger tarray_write_spec(v@, T::SIZE as nat, address, before, written, w)]
        tarray_write_spec(v@, T::SIZE as nat, address, before, written, w);
    let n = NULL_POINTER_ID;
    let s1 = before.after_pointer(n);
    let s2 = s1.after_pointer(n);
    let s3 = s2.after_pointer(n);
    assert(written == s3);
    assert(fin.buffer.len() >= written.buffer.len());
    lemma_aligned_noop(before);
    lemma_after_pointer_wf(before, n);
    assert(s1.buffer.len() == before.buffer.len() + 8);
    lemma_aligned_noop(s1);
    lemma_after_pointer_wf(s1, n);
    assert(s2.buffer.len() == before.buffer.len() + 16);
    lemma_aligned_noop(s2);
    lemma_after_pointer_wf(s2, n);
    assert(s3.buffer.len() == before.buffer.len() + 24);
    let third = de.at((de.pos + 16) as u64);
    lemma_pointer_reads_back(s2, n, fin, third);
    lemma_no_padding(de.pos);
    assert(de.align_ok(8));
    assert(de.after_align(8) == de);
    assert(de.seek_by(16) matches Ok(b) && b == third);
    assert(third.can_read(8));
    assert(le_value(third.bytes_at_cursor(8)) == n as nat);
    assert(array_flags(de) == Some((third.after_read(8), n)));
}

/// Whether the values of `T` read back. Every value has the type's alignment;
/// wherever a serializer, padded to a value's alignment, wrote it successfully, the
/// write did not shorten the buffer, and where the state was well formed and the
/// buffer fits in memory, the write extended the state and kept it well formed; and
/// in the file that any later state finishes, read with the type names of its
/// header, with the cursor where the value was written, the cursor can be aligned to
/// `T`'s alignment, `T::read` there does not fail, and it gives that value back, with
/// the cursor just past it and the data and type names unchanged.
pub open spec fn values_read_back<T: Bin1Serialize + Bin1Deserialize>() -> bool {
    &&& forall|x: T| #[trigger] x.alignment_spec() == T::ALIGNMENT
    &&& forall|x: T, s: SerializerView, s2: SerializerView|
        #![trigger x.write_spec(s.aligned(x.alignment_spec() as nat), s2, Ok(()))]
        x.write_spec(s.aligned(x.alignment_spec() as nat), s2, Ok(())) ==> s.buffer.len()
            <= s2.buffer.len()
    &&& forall|x: T, s: SerializerView, s2: SerializerView|
        #![trigger x.write_spec(s.aligned(x.alignment_spec() as nat), s2, Ok(()))]
        s.wf() && x.write_spec(s.aligned(x.alignment_spec() as nat), s2, Ok(()))
            && s2.buffer.len() <= usize::MAX ==> s.extended_by(s2) && s2.wf()
    &&& forall|
        x: T,
        s: SerializerView,
        s2: SerializerView,
        f: SerializerView,
        d: DeserializerView,
        d2: DeserializerView,
        y: T,
    |
        #![trigger x.write_spec(s.aligned(x.alignment_spec() as nat), s2, Ok(())), T::read_spec(d.after_align(T::ALIGNMENT), d2, Ok(y)), reads_file(f, d)]
        s.wf() && x.write_spec(s.aligned(x.alignment_spec() as nat), s2, Ok(())) && s2.extended_by(f)
            && reads_file(f, d) && d.pos == s.buffer.len() && d.align_ok(T::ALIGNMENT)
            && T::read_spec(d.after_align(T::ALIGNMENT), d2, Ok(y)) ==> y == x && d2.pos
            == s2.buffer.len() && d2.data == d.data && d2.type_names == d.type_names
    &&& forall|x: T, s: SerializerView, s2: SerializerView, f: SerializerView, d: DeserializerView|
        #![trigger x.write_spec(s.aligned(x.alignment_spec() as nat), s2, Ok(())), reads_file(f, d)]
        s.wf() && x.write_spec(s.aligned(x.alignment_spec() as nat), s2, Ok(())) && s2.extended_by(f)
            && reads_file(f, d) && d.pos == s.buffer.len() ==> d.align_ok(T::ALIGNMENT)
    &&& forall|
        x: T,
        s: SerializerView,
        s2: SerializerView,
        f: SerializerView,
        d: DeserializerView,
        d2: DeserializerView,
        e: DeserializeError,
    |
        #![trigger x.write_spec(s.aligned(x.alignment_spec() as nat), s2, Ok(())), reads_file(f, d), T::read_spec(d.after_align(T::ALIGNMENT), d2, Err(e))]
        s.wf() && x.write_spec(s.aligned(x.alignment_spec() as nat), s2, Ok(())) && s2.extended_by(f)
            && reads_file(f, d) && d.pos == s.buffer.len() ==> !T::read_spec(
            d.after_align(T::ALIGNMENT),
            d2,
            Err(e),
        )
}

/// Whether the deserializer state `d` reads the file that the serializer state `f`
/// finishes, with the type names of its header: `f` is well formed and within the
/// format's limits, and `d` holds the finished bytes, which fit in memory, and `f`'s
/// type names by index.
pub open spec fn reads_file(f: SerializerView, d: DeserializerView) -> bool {
    &&& f.wf()
    &&& f.fits_format()
    &&& f.buffer.len() <= usize::MAX
    &&& d.data == f.finalised()
    &&& d.data.len() <= usize::MAX
    &&& d.type_names == names_map(f.type_names)
}

/// Aligning a cursor in the data section moves it as far as padding a serializer's
/// data section of that length does.
proof fn lemma_same_padding(len: nat, a: usize)
    requires
        len >= 16,
        len <= usize::MAX,
        a > 0,
    ensures
        de_padding(len as u64, a) == padding_for(len, a as nat),
{
    let rel = (len as u64).wrapping_sub(16);
    assert(rel == len - 16);
    assert((rel as usize) == rel);
}

/// Values written as fixed bytes read back. Where each value `x` of `T`, aligned to
/// `alignment`, is written as the `n` bytes `bytes(x)` (whatever else the write
/// records, it keeps the state well formed and extends the state with those bytes
/// appended), and reading `n` bytes that are `bytes(x)` gives `x` and moves past
/// them, the values of `T` read back, and where `n > 0` each write adds bytes.
pub proof fn lemma_fixed_values_read_back<T: Bin1Serialize + Bin1Deserialize>(
    bytes: spec_fn(T) -> Seq<u8>,
    n: nat,
    alignment: usize,
)
    requires
        alignment > 0,
        T::ALIGNMENT == alignment,
        forall|x: T| #[trigger] x.alignment_spec() == alignment,
        forall|x: T| (#[trigger] bytes(x)).len() == n,
        forall|x: T, b: SerializerView, a: SerializerView, r: Result<(), SerializeError>|
            #[trigger] x.write_spec(b, a, r) ==> a.buffer.len() == b.buffer.len() + n,
        forall|x: T, b: SerializerView, a: SerializerView, r: Result<(), SerializeError>|
            #[trigger] x.write_spec(b, a, r) && b.wf() && a.buffer.len() <= usize::MAX ==> a.wf()
                && b.extended_by(a) && b.append(bytes(x)).extended_by(a),
        forall|x: T, b: DeserializerView, a: DeserializerView, r: Result<T, DeserializeError>|
            #![trigger T::read_spec(b, a, r), bytes(x)]
            T::read_spec(b, a, r) && b.can_read(n) && b.bytes_at_cursor(n) == bytes(x) ==> r == Ok::<
                T,
                DeserializeError,
            >(x) && a == b.after_read(n),
        forall|x: T, b: SerializerView, a1: SerializerView, a2: SerializerView, r1: Result<(), SerializeError>, r2: Result<(), SerializeError>|
            #[trigger] x.write_spec(b, a1, r1) && #[trigger] x.write_spec(b, a2, r2) ==> a1 == a2 && (r1 is Ok <==> r2 is Ok),
        forall|x: T, b: SerializerView, a: SerializerView, r: Result<(), SerializeError>|
            #[trigger] x.resolve_spec(b, a, r) <==> no_pointees(b, a, r),
    ensures
        values_read_back::<T>(),
        n > 0 ==> values_advance::<T>(),
        writes_determined::<T>(),
        n % (alignment as nat) == 0 ==> values_end_aligned::<T>(),
{
    if n % (alignment as nat) == 0 {
        assert forall|x: T, s: SerializerView, s2: SerializerView|
            #![trigger x.write_spec(s.aligned(x.alignment_spec() as nat), s2, Ok(()))]
            s.buffer.len() >= 16 && x.write_spec(s.aligned(x.alignment_spec() as nat), s2, Ok(()))
                implies (s2.buffer.len() - 16) % (T::ALIGNMENT as int) == 0 by {
            let a = s.aligned(alignment as nat);
            assert(x.alignment_spec() == alignment);
            assert(x.write_spec(a, s2, Ok(())));
            lemma_aligned_len(s, alignment as nat);
            let m = a.buffer.len() - 16;
            let al = alignment as int;
            lemma_fundamental_div_mod(m, al);
            lemma_fundamental_div_mod(n as int, al);
            let q = m / al + (n as int) / al;
            assert(m + n == q * al) by (nonlinear_arith)
                requires
                    m == al * (m / al),
                    n as int == al * ((n as int) / al),
                    q == m / al + (n as int) / al,
            ;
            lemma_mod_multiples_basic(q, al);
        }
    }
    assert forall|x: T, s: SerializerView, s2: SerializerView|
        #![trigger x.write_spec(s.aligned(x.alignment_spec() as nat), s2, Ok(()))]
        x.write_spec(s.aligned(x.alignment_spec() as nat), s2, Ok(())) implies s.buffer.len() + n
            <= s2.buffer.len() by {
        assert(x.alignment_spec() == alignment);
        assert(x.write_spec(s.aligned(alignment as nat), s2, Ok(())));
    }
    assert forall|x: T, s: SerializerView, s2: SerializerView|
        #![trigger x.write_spec(s.aligned(x.alignment_spec() as nat), s2, Ok(()))]
        s.wf() && x.write_spec(s.aligned(x.alignment_spec() as nat), s2, Ok(()))
            && s2.buffer.len() <= usize::MAX implies s.extended_by(s2) && s2.wf() by {
        let a = s.aligned(alignment as nat);
        assert(x.alignment_spec() == alignment);
        lemma_append_wf(s, zeros(padding_for(s.buffer.len(), alignment as nat)));
        assert(x.write_spec(a, s2, Ok(())));
        lemma_extended_by_transitive(s, a, s2);
    }
    assert forall|
        x: T,
        s: SerializerView,
        s2: SerializerView,
        f: SerializerView,
        d: DeserializerView,
    |
        #![trigger x.write_spec(s.aligned(x.alignment_spec() as nat), s2, Ok(())), reads_file(f, d)]
        s.wf() && x.write_spec(s.aligned(x.alignment_spec() as nat), s2, Ok(())) && s2.extended_by(f)
            && reads_file(f, d) && d.pos == s.buffer.len() implies d.align_ok(T::ALIGNMENT)
            && d.after_align(T::ALIGNMENT).pos == s.aligned(alignment as nat).buffer.len()
            && d.after_align(T::ALIGNMENT).data == d.data
            && d.after_align(T::ALIGNMENT).type_names == d.type_names
            && d.after_align(T::ALIGNMENT).can_read(n)
            && d.after_align(T::ALIGNMENT).bytes_at_cursor(n) == bytes(x)
            && s2.buffer.len() == s.aligned(alignment as nat).buffer.len() + n by {
        let a = s.aligned(alignment as nat);
        assert(x.alignment_spec() == alignment);
        lemma_append_wf(s, zeros(padding_for(s.buffer.len(), alignment as nat)));
        assert(x.write_spec(a, s2, Ok(())));
        lemma_extended_by_transitive(a.append(bytes(x)), s2, f);
        assert(f.buffer.len() >= s2.buffer.len());
        lemma_same_padding(s.buffer.len(), alignment);
        let da = d.after_align(alignment);
        assert(da.pos == a.buffer.len());
        lemma_written_bytes_read_back(a, f, bytes(x), da);
    }
}

/// A file reads back. Where a serializer holding only a header serialized `x`, of
/// a type whose values read back (it wrote `x` as the root, giving `written`, then
/// its pointees, giving `resolved`, and finished the file as `bytes`), a deserializer
/// over those bytes reads the header without an error, with the cursor at the start
/// of the data section, and then reads `x` back as a `T`, with the cursor just past
/// the root value.
pub proof fn lemma_file_reads_back<T: Bin1Serialize + Bin1Deserialize>(
    x: T,
    start: SerializerView,
    written: SerializerView,
    resolved: SerializerView,
    bytes: Seq<u8>,
    read: DeserializerView,
    r: Result<T, DeserializeError>,
)
    requires
        values_read_back::<T>(),
        start.wf(),
        start.buffer.len() == 16,
        x.write_spec(start.rooted(x.alignment_spec()), written, Ok(())),
        written.extended_by(resolved),
        resolved.wf(),
        resolved.finish_outcome() == Ok::<Seq<u8>, SerializeError>(bytes),
        bytes.len() <= usize::MAX,
        T::read_spec(
            DeserializerView { data: bytes, pos: 0, type_names: Map::empty() }.header_read().0,
            read,
            r,
        ),
    ensures
        ({
            let fresh = DeserializerView { data: bytes, pos: 0, type_names: Map::empty() };
            &&& fresh.header_read().1 is None
            &&& fresh.header_read().0.pos == 16
            &&& r == Ok::<T, DeserializeError>(x)
            &&& read.pos == written.buffer.len()
        }),
{
    let fresh = DeserializerView { data: bytes, pos: 0, type_names: Map::empty() };
    let s = start.rooted(x.alignment_spec());
    assert(s.buffer.take(4) =~= start.buffer.take(4));
    assert(s.wf());
    T::alignment_is_positive();
    assert(x.alignment_spec() == T::ALIGNMENT);
    assert(s.aligned(x.alignment_spec() as nat) == s) by {
        let a = x.alignment_spec() as int;
        assert((a - 0int % a) % a == 0) by (nonlinear_arith)
            requires
                a > 0,
        ;
        assert(padding_for(16, x.alignment_spec() as nat) == 0);
        assert(s.append(zeros(0)).buffer =~= s.buffer);
    }
    assert(resolved.fits_format());
    assert(bytes == resolved.finalised());
    lemma_header_reads_back(resolved, fresh);
    let d = fresh.header_read().0;
    assert(d.pos == 16 && d.data == bytes && d.type_names == names_map(resolved.type_names));
    assert(reads_file(resolved, d));
    assert(x.write_spec(s.aligned(x.alignment_spec() as nat), written, Ok(())));
    assert(d.align_ok(T::ALIGNMENT));
    assert(d.after_align(T::ALIGNMENT) == d) by {
        lemma_no_padding_at_start(T::ALIGNMENT);
    }
    if r is Err {
        let e = r->Err_0;
        assert(T::read_spec(d.after_align(T::ALIGNMENT), read, Err(e)));
        assert(false);
    }
    let y = r->Ok_0;
    assert(T::read_spec(d.after_align(T::ALIGNMENT), read, Ok(y)));
    assert(y == x);
}

/// Serializing what was read back gives the same bytes. Where a serializer in the
/// state `start`, holding only a header, serialized `x`, of a type whose values read
/// back and whose writes are determined by the state they start from (it wrote `x`
/// as the root, giving `written`, then its pointees, giving `resolved`, and finished
/// the file as `bytes`), the value read back from those bytes is `x`, and a
/// serializer in the same state serializing it writes and resolves it successfully,
/// into the states that finish the same bytes.
pub proof fn lemma_reserialize_same_bytes<T: Bin1Serialize + Bin1Deserialize>(
    x: T,
    start: SerializerView,
    written: SerializerView,
    resolved: SerializerView,
    bytes: Seq<u8>,
    read: DeserializerView,
    r: Result<T, DeserializeError>,
    written2: SerializerView,
    r1: Result<(), SerializeError>,
    resolved2: SerializerView,
    r2: Result<(), SerializeError>,
)
    requires
        values_read_back::<T>(),
        writes_determined::<T>(),
        start.wf(),
        start.buffer.len() == 16,
        x.write_spec(start.rooted(x.alignment_spec()), written, Ok(())),
        x.resolve_spec(written, resolved, Ok(())),
        written.extended_by(resolved),
        resolved.wf(),
        resolved.finish_outcome() == Ok::<Seq<u8>, SerializeError>(bytes),
        bytes.len() <= usize::MAX,
        T::read_spec(
            DeserializerView { data: bytes, pos: 0, type_names: Map::empty() }.header_read().0,
            read,
            r,
        ),
        r matches Ok(y) && y.write_spec(start.rooted(y.alignment_spec()), written2, r1),
        r1 is Ok ==> r->Ok_0.resolve_spec(written2, resolved2, r2),
    ensures
        r1 is Ok,
        r2 is Ok,
        resolved2.finish_outcome() == Ok::<Seq<u8>, SerializeError>(bytes),
{
    lemma_file_reads_back(x, start, written, resolved, bytes, read, r);
    assert(r->Ok_0 == x);
    assert(x.write_spec(start.rooted(x.alignment_spec()), written2, r1));
    assert(written2 == written && r1 is Ok);
    assert(x.resolve_spec(written, resolved2, r2));
    assert(resolved2 == resolved && r2 is Ok);
}

/// At the start of the data section, aligning the cursor does not move it.
proof fn lemma_no_padding_at_start(alignment: usize)
    requires
        alignment > 0,
    ensures
        de_padding(16, alignment) == 0,
{
    let rel = 16u64.wrapping_sub(16);
    assert(rel == 0);
    assert((rel as usize) == 0);
    let a = alignment as int;
    assert((a - 0int % a) % a == 0) by (nonlinear_arith)
        requires
            a > 0,
    ;
}

/// Type IDs read back. Wherever a serializer, padded to 8, wrote a type ID, the
/// write added bytes, and where the state was well formed and the buffer fits in
/// memory, the write extended the state and kept it well formed; and in the file
/// that any later state finishes, read with the type names of its header, with the
/// cursor where the type ID was written, the cursor can be aligned to 8, reading a
/// type ID there succeeds and gives the same name, with the cursor just past it and
/// the data and type names unchanged.
pub proof fn lemma_type_id_values_read_back()
    ensures
        forall|x: TypeID, s: SerializerView, s2: SerializerView|
            #![trigger x.write_spec(s.aligned(8), s2, Ok(()))]
            x.write_spec(s.aligned(8), s2, Ok(())) ==> s.buffer.len() < s2.buffer.len(),
        forall|x: TypeID, s: SerializerView, s2: SerializerView|
            #![trigger x.write_spec(s.aligned(8), s2, Ok(()))]
            s.wf() && x.write_spec(s.aligned(8), s2, Ok(())) && s2.buffer.len() <= usize::MAX
                ==> s.extended_by(s2) && s2.wf(),
        forall|
            x: TypeID,
            s: SerializerView,
            s2: SerializerView,
            f: SerializerView,
            d: DeserializerView,
            d2: DeserializerView,
            r: Result<TypeID, DeserializeError>,
        |
            #![trigger x.write_spec(s.aligned(8), s2, Ok(())), reads_file(f, d), TypeID::read_spec(d.after_align(8), d2, r)]
            s.wf() && x.write_spec(s.aligned(8), s2, Ok(())) && s2.extended_by(f) && reads_file(f, d)
                && d.pos == s.buffer.len() && TypeID::read_spec(d.after_align(8), d2, r) ==> d.align_ok(
                8,
            ) && (r matches Ok(y) && y.0@ == x.0@) && d2.pos == s2.buffer.len() && d2.data == d.data
                && d2.type_names == d.type_names,
{
    assert forall|x: TypeID, s: SerializerView, s2: SerializerView|
        #![trigger x.write_spec(s.aligned(8), s2, Ok(()))]
        s.wf() && x.write_spec(s.aligned(8), s2, Ok(())) && s2.buffer.len() <= usize::MAX implies s.extended_by(
            s2,
        ) && s2.wf() by {
        let a = s.aligned(8);
        lemma_append_wf(s, zeros(padding_for(s.buffer.len(), 8)));
        crate::ser::lemma_after_type_wf(a, x.0@);
        lemma_extended_by_transitive(s, a, s2);
    }
    assert forall|
        x: TypeID,
        s: SerializerView,
        s2: SerializerView,
        f: SerializerView,
        d: DeserializerView,
        d2: DeserializerView,
        r: Result<TypeID, DeserializeError>,
    |
        #![trigger x.write_spec(s.aligned(8), s2, Ok(())), reads_file(f, d), TypeID::read_spec(d.after_align(8), d2, r)]
        s.wf() && x.write_spec(s.aligned(8), s2, Ok(())) && s2.extended_by(f) && reads_file(f, d)
            && d.pos == s.buffer.len() && TypeID::read_spec(d.after_align(8), d2, r) implies d.align_ok(8)
            && (r matches Ok(y) && y.0@ == x.0@) && d2.pos == s2.buffer.len() && d2.data == d.data
            && d2.type_names == d.type_names by {
        let a = s.aligned(8);
        lemma_append_wf(s, zeros(padding_for(s.buffer.len(), 8)));
        lemma_aligned_8(s);
        lemma_aligned_noop(a);
        assert(f.buffer.len() >= s2.buffer.len());
        lemma_same_padding(s.buffer.len(), 8);
        let de = d.after_align(8);
        assert(de.pos == a.buffer.len());
        lemma_type_id_reads_back(a, x.0@, f, de);
    }
}

/// Each serializer state of `states` extends the next, so each extends every later one.
proof fn lemma_chain(states: Seq<SerializerView>, i: int, j: int)
    requires
        0 <= i <= j < states.len(),
        forall|k: int| 0 <= k < states.len() - 1 ==> (#[trigger] states[k]).extended_by(states[k + 1]),
    ensures
        states[i].extended_by(states[j]),
    decreases j - i,
{
    if i == j {
        crate::ser::lemma_extended_by_refl(states[i]);
    } else {
        assert(states[i].extended_by(states[i + 1]));
        lemma_chain(states, i + 1, j);
        lemma_extended_by_transitive(states[i], states[i + 1], states[j]);
    }
}

/// Writing values of a type whose values read back leaves each buffer at most as
/// long as the last one.
proof fn lemma_written_lengths<T: Bin1Serialize + Bin1Deserialize>(
    items: Seq<T>,
    states: Seq<SerializerView>,
    i: int,
)
    requires
        values_read_back::<T>(),
        written_in_order(items, states),
        0 <= i < states.len(),
    ensures
        states[i].buffer.len() <= states.last().buffer.len(),
    decreases states.len() - i,
{
    if i < states.len() - 1 {
        assert(items[i].write_spec(
            states[i].aligned(items[i].alignment_spec() as nat),
            states[i + 1],
            Ok(()),
        ));
        lemma_written_lengths(items, states, i + 1);
    }
}

/// Writing values of a type whose values read back keeps the states well formed, each
/// extending the next, from the `k`-th on, where the last buffer fits in memory.
proof fn lemma_written_states<T: Bin1Serialize + Bin1Deserialize>(
    items: Seq<T>,
    states: Seq<SerializerView>,
    k: int,
)
    requires
        values_read_back::<T>(),
        written_in_order(items, states),
        0 <= k < states.len(),
        states[k].wf(),
        states.last().buffer.len() <= usize::MAX,
    ensures
        forall|i: int| k <= i < states.len() ==> (#[trigger] states[i]).wf(),
        forall|i: int| k <= i < states.len() - 1 ==> (#[trigger] states[i]).extended_by(states[i + 1]),
    decreases states.len() - k,
{
    if k < states.len() - 1 {
        assert(items[k].write_spec(
            states[k].aligned(items[k].alignment_spec() as nat),
            states[k + 1],
            Ok(()),
        ));
        lemma_written_lengths(items, states, k + 1);
        lemma_written_states(items, states, k + 1);
    }
}

/// Values written one after the other, of a type whose values read back, are read
/// back one after the other, from the `k`-th on.
proof fn lemma_elements_read_back<T: Bin1Serialize + Bin1Deserialize>(
    items: Seq<T>,
    ws: Seq<SerializerView>,
    values: Seq<T>,
    rs: Seq<DeserializerView>,
    fin: SerializerView,
    k: int,
)
    requires
        values_read_back::<T>(),
        written_in_order(items, ws),
        read_in_order(values, rs),
        forall|i: int| 0 <= i < ws.len() ==> (#[trigger] ws[i]).wf(),
        forall|i: int| 0 <= i < ws.len() ==> (#[trigger] ws[i]).extended_by(fin),
        0 <= k < rs.len(),
        k < ws.len(),
        rs[k].pos == ws[k].buffer.len(),
        reads_file(fin, rs[k]),
    ensures
        forall|i: int| k <= i < values.len() && i < items.len() ==> #[trigger] values[i] == items[i],
        forall|i: int|
            k <= i < rs.len() && i < ws.len() ==> (#[trigger] rs[i]).pos == ws[i].buffer.len()
                && reads_file(fin, rs[i]),
    decreases rs.len() - k,
{
    if k < values.len() && k < items.len() {
        let x = items[k];
        let y = values[k];
        assert(x.write_spec(ws[k].aligned(x.alignment_spec() as nat), ws[k + 1], Ok(())));
        assert(rs[k].align_ok(T::ALIGNMENT) && T::read_spec(
            rs[k].after_align(T::ALIGNMENT),
            rs[k + 1],
            Ok(values[k]),
        ));
        assert(ws[k + 1].extended_by(fin));
        assert(y == x && rs[k + 1].pos == ws[k + 1].buffer.len() && rs[k + 1].data == rs[k].data
            && rs[k + 1].type_names == rs[k].type_names);
        lemma_elements_read_back(items, ws, values, rs, fin, k + 1);
    }
}

/// Writing values of a type whose values read back leaves each buffer at most as
/// long as every later one.
proof fn lemma_written_lengths_between<T: Bin1Serialize + Bin1Deserialize>(
    items: Seq<T>,
    states: Seq<SerializerView>,
    i: int,
    j: int,
)
    requires
        values_read_back::<T>(),
        written_in_order(items, states),
        0 <= i <= j < states.len(),
    ensures
        states[i].buffer.len() <= states[j].buffer.len(),
    decreases j - i,
{
    if i < j {
        assert(items[i].write_spec(
            states[i].aligned(items[i].alignment_spec() as nat),
            states[i + 1],
            Ok(()),
        ));
        lemma_written_lengths_between(items, states, i + 1, j);
    }
}

/// Values written one after the other as a fixed array's elements, of a type whose
/// values read back and whose writes end aligned, are read back one after the other
/// as a fixed array's elements, from the `k`-th on.
proof fn lemma_fixed_elements_read_back<T: Bin1Serialize + Aligned + Bin1Deserialize>(
    items: Seq<T>,
    ws: Seq<SerializerView>,
    values: Seq<T>,
    rs: Seq<DeserializerView>,
    raws: Seq<DeserializerView>,
    fin: SerializerView,
    k: int,
)
    requires
        values_read_back::<T>(),
        values_end_aligned::<T>(),
        written_in_order(items, ws),
        fixed_read_in_order(values, rs, raws),
        forall|i: int| 0 <= i < ws.len() ==> (#[trigger] ws[i]).wf(),
        forall|i: int| 0 <= i < ws.len() ==> (#[trigger] ws[i]).extended_by(fin),
        0 <= k < rs.len(),
        k < ws.len(),
        rs[k].pos == ws[k].buffer.len(),
        reads_file(fin, rs[k]),
    ensures
        forall|i: int| k <= i < values.len() && i < items.len() ==> #[trigger] values[i] == items[i],
        forall|i: int|
            k <= i < rs.len() && i < ws.len() ==> (#[trigger] rs[i]).pos == ws[i].buffer.len()
                && reads_file(fin, rs[i]),
    decreases rs.len() - k,
{
    if k < values.len() && k < items.len() {
        let x = items[k];
        let y = values[k];
        assert(x.write_spec(ws[k].aligned(x.alignment_spec() as nat), ws[k + 1], Ok(())));
        assert(rs[k].align_ok(T::ALIGNMENT) && T::read_spec(
            rs[k].after_align(T::ALIGNMENT),
            raws[k],
            Ok(values[k]),
        ) && raws[k].align_ok(T::ALIGNMENT) && rs[k + 1] == raws[k].after_align(T::ALIGNMENT));
        assert(ws[k + 1].extended_by(fin));
        assert(y == x && raws[k].pos == ws[k + 1].buffer.len() && raws[k].data == rs[k].data
            && raws[k].type_names == rs[k].type_names);
        assert((ws[k + 1].buffer.len() - 16) % (T::ALIGNMENT as int) == 0);
        T::alignment_is_positive();
        assert(fin.buffer.len() >= ws[k + 1].buffer.len());
        lemma_aligned_cursor(raws[k], T::ALIGNMENT);
        lemma_fixed_elements_read_back(items, ws, values, rs, raws, fin, k + 1);
    }
}

/// Fixed arrays of values that read back, and whose writes end aligned, read back,
/// their writes are determined by what the elements' are, and they end aligned.
pub proof fn lemma_array_values_read_back<T: Bin1Serialize + Aligned + Bin1Deserialize, const N: usize>()
    requires
        values_read_back::<T>(),
        values_end_aligned::<T>(),
    ensures
        values_read_back::<[T; N]>(),
        values_end_aligned::<[T; N]>(),
{
    T::alignment_is_positive();
    <[T; N] as Aligned>::alignment_is_positive();
    let al = T::ALIGNMENT;
    assert forall|x: [T; N], s: SerializerView, s2: SerializerView|
        #![trigger x.write_spec(s.aligned(x.alignment_spec() as nat), s2, Ok(()))]
        x.write_spec(s.aligned(x.alignment_spec() as nat), s2, Ok(())) implies s.buffer.len()
            <= s2.buffer.len() by {
        let ws = choose|states: Seq<SerializerView>|
            #![trigger written_in_order(x@, states)]
            written_in_order(x@, states) && states[0] == s.aligned(al as nat) && states.last() == s2;
        lemma_written_lengths(x@, ws, 0);
    }
    assert forall|x: [T; N], s: SerializerView, s2: SerializerView|
        #![trigger x.write_spec(s.aligned(x.alignment_spec() as nat), s2, Ok(()))]
        s.wf() && x.write_spec(s.aligned(x.alignment_spec() as nat), s2, Ok(()))
            && s2.buffer.len() <= usize::MAX implies s.extended_by(s2) && s2.wf() by {
        let a = s.aligned(al as nat);
        let ws = choose|states: Seq<SerializerView>|
            #![trigger written_in_order(x@, states)]
            written_in_order(x@, states) && states[0] == a && states.last() == s2;
        lemma_append_wf(s, zeros(padding_for(s.buffer.len(), al as nat)));
        lemma_written_states(x@, ws, 0);
        lemma_chain(ws, 0, ws.len() - 1);
        lemma_extended_by_transitive(s, a, s2);
    }
    assert forall|x: [T; N], s: SerializerView, s2: SerializerView|
        #![trigger x.write_spec(s.aligned(x.alignment_spec() as nat), s2, Ok(()))]
        s.buffer.len() >= 16 && x.write_spec(s.aligned(x.alignment_spec() as nat), s2, Ok(()))
            implies (s2.buffer.len() - 16) % (<[T; N] as Aligned>::ALIGNMENT as int) == 0 by {
        let a = s.aligned(al as nat);
        let ws = choose|states: Seq<SerializerView>|
            #![trigger written_in_order(x@, states)]
            written_in_order(x@, states) && states[0] == a && states.last() == s2;
        lemma_aligned_len(s, al as nat);
        if N > 0 {
            let m = N - 1;
            lemma_written_lengths_between(x@, ws, 0, m);
            assert(x@[m].write_spec(ws[m].aligned(x@[m].alignment_spec() as nat), ws[m + 1], Ok(())));
        }
    }
    assert forall|x: [T; N], s: SerializerView, s2: SerializerView, f: SerializerView, d: DeserializerView|
        #![trigger x.write_spec(s.aligned(x.alignment_spec() as nat), s2, Ok(())), reads_file(f, d)]
        s.wf() && x.write_spec(s.aligned(x.alignment_spec() as nat), s2, Ok(())) && s2.extended_by(f)
            && reads_file(f, d) && d.pos == s.buffer.len() implies d.align_ok(al) && d.after_align(al).pos
            == s.aligned(al as nat).buffer.len() && reads_file(f, d.after_align(al)) && (N > 0 ==> d.after_align(
            al,
        ).align_ok(al)) by {
        let a = s.aligned(al as nat);
        let ws = choose|states: Seq<SerializerView>|
            #![trigger written_in_order(x@, states)]
            written_in_order(x@, states) && states[0] == a && states.last() == s2;
        lemma_written_lengths(x@, ws, 0);
        lemma_aligned_len(s, al as nat);
        assert(f.buffer.len() >= s2.buffer.len());
        lemma_same_padding(s.buffer.len(), al);
        lemma_aligned_cursor(d.after_align(al), al);
    }
    assert forall|
        x: [T; N],
        s: SerializerView,
        s2: SerializerView,
        f: SerializerView,
        d: DeserializerView,
        d2: DeserializerView,
        y: [T; N],
    |
        #![trigger x.write_spec(s.aligned(x.alignment_spec() as nat), s2, Ok(())), <[T; N] as Bin1Deserialize>::read_spec(d.after_align(<[T; N] as Aligned>::ALIGNMENT), d2, Ok(y)), reads_file(f, d)]
        s.wf() && x.write_spec(s.aligned(x.alignment_spec() as nat), s2, Ok(())) && s2.extended_by(f)
            && reads_file(f, d) && d.pos == s.buffer.len() && d.align_ok(<[T; N] as Aligned>::ALIGNMENT)
            && <[T; N] as Bin1Deserialize>::read_spec(d.after_align(<[T; N] as Aligned>::ALIGNMENT), d2, Ok(y))
            implies y == x && d2.pos == s2.buffer.len() && d2.data == d.data && d2.type_names
            == d.type_names by {
        let a = s.aligned(al as nat);
        let da = d.after_align(al);
        let ws = choose|states: Seq<SerializerView>|
            #![trigger written_in_order(x@, states)]
            written_in_order(x@, states) && states[0] == a && states.last() == s2;
        assert(da.pos == a.buffer.len() && reads_file(f, da));
        if N > 0 {
            let (rs, raws) = choose|states: Seq<DeserializerView>, raws: Seq<DeserializerView>|
                #![trigger fixed_read_in_order(y@, states, raws)]
                fixed_read_in_order(y@, states, raws) && states[0] == da && d2 == states.last();
            lemma_append_wf(s, zeros(padding_for(s.buffer.len(), al as nat)));
            lemma_written_states(x@, ws, 0);
            assert forall|i: int| 0 <= i < ws.len() implies (#[trigger] ws[i]).extended_by(f) by {
                lemma_chain(ws, i, ws.len() - 1);
                lemma_extended_by_transitive(ws[i], s2, f);
            }
            lemma_fixed_elements_read_back(x@, ws, y@, rs, raws, f, 0);
            assert(y =~= x);
            assert(rs[N as int].pos == ws[N as int].buffer.len() && reads_file(f, rs[N as int]));
        } else {
            assert(y =~= x);
        }
    }
    assert forall|
        x: [T; N],
        s: SerializerView,
        s2: SerializerView,
        f: SerializerView,
        d: DeserializerView,
        d2: DeserializerView,
        e: DeserializeError,
    |
        #![trigger x.write_spec(s.aligned(x.alignment_spec() as nat), s2, Ok(())), reads_file(f, d), <[T; N] as Bin1Deserialize>::read_spec(d.after_align(<[T; N] as Aligned>::ALIGNMENT), d2, Err(e))]
        s.wf() && x.write_spec(s.aligned(x.alignment_spec() as nat), s2, Ok(())) && s2.extended_by(f)
            && reads_file(f, d) && d.pos == s.buffer.len() implies !<[T; N] as Bin1Deserialize>::read_spec(
            d.after_align(<[T; N] as Aligned>::ALIGNMENT),
            d2,
            Err(e),
        ) by {
        let a = s.aligned(al as nat);
        let da = d.after_align(al);
        let ws = choose|states: Seq<SerializerView>|
            #![trigger written_in_order(x@, states)]
            written_in_order(x@, states) && states[0] == a && states.last() == s2;
        if <[T; N] as Bin1Deserialize>::read_spec(da, d2, Err(e)) {
            assert(N > 0);
            assert(da.align_ok(al));
            let (values, rs, raws) = choose|
                values: Seq<T>,
                states: Seq<DeserializerView>,
                raws: Seq<DeserializerView>,
            |
                #![trigger fixed_read_in_order(values, states, raws)]
                values.len() < N && fixed_read_in_order(values, states, raws) && states[0] == da
                    && fixed_read_fails::<T>(states.last());
            lemma_append_wf(s, zeros(padding_for(s.buffer.len(), al as nat)));
            lemma_written_states(x@, ws, 0);
            assert forall|i: int| 0 <= i < ws.len() implies (#[trigger] ws[i]).extended_by(f) by {
                lemma_chain(ws, i, ws.len() - 1);
                lemma_extended_by_transitive(ws[i], s2, f);
            }
            lemma_fixed_elements_read_back(x@, ws, values, rs, raws, f, 0);
            let m = values.len() as int;
            let r = rs[m];
            assert(r == rs.last());
            assert(r.pos == ws[m].buffer.len() && reads_file(f, r));
            let item = x@[m];
            assert(item.write_spec(ws[m].aligned(item.alignment_spec() as nat), ws[m + 1], Ok(())));
            assert(ws[m + 1].extended_by(f));
            assert(ws[m].wf());
            assert(r.align_ok(T::ALIGNMENT));
            if exists|s3: DeserializerView, e2: DeserializeError|
                #![trigger T::read_spec(r.after_align(T::ALIGNMENT), s3, Err(e2))]
                T::read_spec(r.after_align(T::ALIGNMENT), s3, Err(e2)) {
                let (s3, e2) = choose|s3: DeserializerView, e2: DeserializeError|
                    #![trigger T::read_spec(r.after_align(T::ALIGNMENT), s3, Err(e2))]
                    T::read_spec(r.after_align(T::ALIGNMENT), s3, Err(e2));
                assert(T::read_spec(r.after_align(T::ALIGNMENT), s3, Err(e2)));
                assert(false);
            }
            let (s3, v) = choose|s3: DeserializerView, v: T|
                #![trigger T::read_spec(r.after_align(T::ALIGNMENT), s3, Ok(v))]
                T::read_spec(r.after_align(T::ALIGNMENT), s3, Ok(v)) && !s3.align_ok(T::ALIGNMENT);
            assert(T::read_spec(r.after_align(T::ALIGNMENT), s3, Ok(v)));
            assert(s3.pos == ws[m + 1].buffer.len());
            assert((ws[m + 1].buffer.len() - 16) % (T::ALIGNMENT as int) == 0);
            assert(f.buffer.len() >= ws[m + 1].buffer.len());
            lemma_aligned_cursor(s3, T::ALIGNMENT);
            assert(false);
        }
    }
}

/// Two runs writing the first `n1` and the first `n2` of `items`, one after the other,
/// from the same state, where each value's writes are determined by the state they
/// start from, pass through the same states as far as both go.
proof fn lemma_write_runs_agree<T: Bin1Serialize>(
    items: Seq<T>,
    n1: int,
    st1: Seq<SerializerView>,
    n2: int,
    st2: Seq<SerializerView>,
    k: int,
)
    requires
        writes_determined::<T>(),
        0 <= n1 <= items.len(),
        0 <= n2 <= items.len(),
        written_in_order(items.take(n1), st1),
        written_in_order(items.take(n2), st2),
        st1[0] == st2[0],
        0 <= k <= n1,
        k <= n2,
    ensures
        st1[k] == st2[k],
    decreases k,
{
    if k > 0 {
        lemma_write_runs_agree(items, n1, st1, n2, st2, k - 1);
        let i = k - 1;
        let x = items[i];
        assert(items.take(n1)[i] == x && items.take(n2)[i] == x);
        assert(items.take(n1)[i].write_spec(
            st1[i].aligned(items.take(n1)[i].alignment_spec() as nat),
            st1[i + 1],
            Ok(()),
        ));
        assert(items.take(n2)[i].write_spec(
            st2[i].aligned(items.take(n2)[i].alignment_spec() as nat),
            st2[i + 1],
            Ok(()),
        ));
    }
}

/// Two runs resolving the first `n1` and the first `n2` of `items`, one after the
/// other, from the same state, where each value's resolves are determined by the
/// state they start from, pass through the same states as far as both go.
proof fn lemma_resolve_runs_agree<T: Bin1Serialize>(
    items: Seq<T>,
    n1: int,
    st1: Seq<SerializerView>,
    n2: int,
    st2: Seq<SerializerView>,
    k: int,
)
    requires
        writes_determined::<T>(),
        0 <= n1 <= items.len(),
        0 <= n2 <= items.len(),
        resolved_in_order(items.take(n1), st1),
        resolved_in_order(items.take(n2), st2),
        st1[0] == st2[0],
        0 <= k <= n1,
        k <= n2,
    ensures
        st1[k] == st2[k],
    decreases k,
{
    if k > 0 {
        lemma_resolve_runs_agree(items, n1, st1, n2, st2, k - 1);
        let i = k - 1;
        let x = items[i];
        assert(items.take(n1)[i] == x && items.take(n2)[i] == x);
        assert(items.take(n1)[i].resolve_spec(st1[i], st1[i + 1], Ok(())));
        assert(items.take(n2)[i].resolve_spec(st2[i], st2[i + 1], Ok(())));
    }
}

/// Writing values one after the other, each value's writes determined by the state
/// they start from, is determined by the state it starts from.
proof fn lemma_items_write_determined<T: Bin1Serialize>(
    items: Seq<T>,
    s: SerializerView,
    a: SerializerView,
    b: SerializerView,
    ra: Result<(), SerializeError>,
    rb: Result<(), SerializeError>,
)
    requires
        writes_determined::<T>(),
        items_write_spec(items, s, a, ra),
        items_write_spec(items, s, b, rb),
    ensures
        a == b,
        ra is Ok <==> rb is Ok,
{
    let n = items.len() as int;
    assert(items.take(n) =~= items);
    if ra is Ok {
        let st1 = choose|states: Seq<SerializerView>|
            #![trigger written_in_order(items, states)]
            written_in_order(items, states) && states[0] == s && states.last() == a;
        if rb is Ok {
            let st2 = choose|states: Seq<SerializerView>|
                #![trigger written_in_order(items, states)]
                written_in_order(items, states) && states[0] == s && states.last() == b;
            lemma_write_runs_agree(items, n, st1, n, st2, n);
        } else {
            let st2 = choose|states: Seq<SerializerView>|
                #![trigger written_in_order(items.take(states.len() - 1), states)]
                1 <= states.len() <= items.len() && written_in_order(items.take(states.len() - 1), states)
                    && states[0] == s && items[states.len() - 1].write_spec(
                    states.last().aligned(items[states.len() - 1].alignment_spec() as nat),
                    b,
                    rb,
                );
            let m = st2.len() - 1;
            lemma_write_runs_agree(items, n, st1, m, st2, m);
            assert(items[m].write_spec(st1[m].aligned(items[m].alignment_spec() as nat), st1[m + 1], Ok(())));
            assert(false);
        }
    } else {
        let st1 = choose|states: Seq<SerializerView>|
            #![trigger written_in_order(items.take(states.len() - 1), states)]
            1 <= states.len() <= items.len() && written_in_order(items.take(states.len() - 1), states)
                && states[0] == s && items[states.len() - 1].write_spec(
                states.last().aligned(items[states.len() - 1].alignment_spec() as nat),
                a,
                ra,
            );
        let m1 = st1.len() - 1;
        if rb is Ok {
            let st2 = choose|states: Seq<SerializerView>|
                #![trigger written_in_order(items, states)]
                written_in_order(items, states) && states[0] == s && states.last() == b;
            lemma_write_runs_agree(items, m1, st1, n, st2, m1);
            assert(items[m1].write_spec(st2[m1].aligned(items[m1].alignment_spec() as nat), st2[m1 + 1], Ok(())));
            assert(false);
        } else {
            let st2 = choose|states: Seq<SerializerView>|
                #![trigger written_in_order(items.take(states.len() - 1), states)]
                1 <= states.len() <= items.len() && written_in_order(items.take(states.len() - 1), states)
                    && states[0] == s && items[states.len() - 1].write_spec(
                    states.last().aligned(items[states.len() - 1].alignment_spec() as nat),
                    b,
                    rb,
                );
            let m2 = st2.len() - 1;
            if m1 < m2 {
                lemma_write_runs_agree(items, m1, st1, m2, st2, m1);
                assert(items.take(m2)[m1] == items[m1]);
                assert(items.take(m2)[m1].write_spec(
                    st2[m1].aligned(items.take(m2)[m1].alignment_spec() as nat),
                    st2[m1 + 1],
                    Ok(()),
                ));
                assert(false);
            } else if m2 < m1 {
                lemma_write_runs_agree(items, m1, st1, m2, st2, m2);
                assert(items.take(m1)[m2] == items[m2]);
                assert(items.take(m1)[m2].write_spec(
                    st1[m2].aligned(items.take(m1)[m2].alignment_spec() as nat),
                    st1[m2 + 1],
                    Ok(()),
                ));
                assert(false);
            } else {
                lemma_write_runs_agree(items, m1, st1, m2, st2, m1);
            }
        }
    }
}

/// Resolving values one after the other, each value's resolves determined by the
/// state they start from, is determined by the state it starts from.
proof fn lemma_items_resolve_determined<T: Bin1Serialize>(
    items: Seq<T>,
    s: SerializerView,
    a: SerializerView,
    b: SerializerView,
    ra: Result<(), SerializeError>,
    rb: Result<(), SerializeError>,
)
    requires
        writes_determined::<T>(),
        items_resolve_spec(items, s, a, ra),
        items_resolve_spec(items, s, b, rb),
    ensures
        a == b,
        ra is Ok <==> rb is Ok,
{
    let n = items.len() as int;
    assert(items.take(n) =~= items);
    if ra is Ok {
        let st1 = choose|states: Seq<SerializerView>|
            #![trigger resolved_in_order(items, states)]
            resolved_in_order(items, states) && states[0] == s && states.last() == a;
        if rb is Ok {
            let st2 = choose|states: Seq<SerializerView>|
                #![trigger resolved_in_order(items, states)]
                resolved_in_order(items, states) && states[0] == s && states.last() == b;
            lemma_resolve_runs_agree(items, n, st1, n, st2, n);
        } else {
            let st2 = choose|states: Seq<SerializerView>|
                #![trigger resolved_in_order(items.take(states.len() - 1), states)]
                1 <= states.len() <= items.len() && resolved_in_order(items.take(states.len() - 1), states)
                    && states[0] == s && items[states.len() - 1].resolve_spec(states.last(), b, rb);
            let m = st2.len() - 1;
            lemma_resolve_runs_agree(items, n, st1, m, st2, m);
            assert(items[m].resolve_spec(st1[m], st1[m + 1], Ok(())));
            assert(false);
        }
    } else {
        let st1 = choose|states: Seq<SerializerView>|
            #![trigger resolved_in_order(items.take(states.len() - 1), states)]
            1 <= states.len() <= items.len() && resolved_in_order(items.take(states.len() - 1), states)
                && states[0] == s && items[states.len() - 1].resolve_spec(states.last(), a, ra);
        let m1 = st1.len() - 1;
        if rb is Ok {
            let st2 = choose|states: Seq<SerializerView>|
                #![trigger resolved_in_order(items, states)]
                resolved_in_order(items, states) && states[0] == s && states.last() == b;
            lemma_resolve_runs_agree(items, m1, st1, n, st2, m1);
            assert(items[m1].resolve_spec(st2[m1], st2[m1 + 1], Ok(())));
            assert(false);
        } else {
            let st2 = choose|states: Seq<SerializerView>|
                #![trigger resolved_in_order(items.take(states.len() - 1), states)]
                1 <= states.len() <= items.len() && resolved_in_order(items.take(states.len() - 1), states)
                    && states[0] == s && items[states.len() - 1].resolve_spec(states.last(), b, rb);
            let m2 = st2.len() - 1;
            if m1 < m2 {
                lemma_resolve_runs_agree(items, m1, st1, m2, st2, m1);
                assert(items.take(m2)[m1] == items[m1]);
                assert(items.take(m2)[m1].resolve_spec(st2[m1], st2[m1 + 1], Ok(())));
                assert(false);
            } else if m2 < m1 {
                lemma_resolve_runs_agree(items, m1, st1, m2, st2, m2);
                assert(items.take(m1)[m2] == items[m2]);
                assert(items.take(m1)[m2].resolve_spec(st1[m2], st1[m2 + 1], Ok(())));
                assert(false);
            } else {
                lemma_resolve_runs_agree(items, m1, st1, m2, st2, m1);
            }
        }
    }
}

/// Writing and resolving fixed arrays are determined by the state they start from,
/// where their elements' are.
pub proof fn lemma_array_writes_determined<T: Bin1Serialize + Aligned, const N: usize>()
    requires
        writes_determined::<T>(),
    ensures
        writes_determined::<[T; N]>(),
{
    assert forall|
        x: [T; N],
        s: SerializerView,
        a: SerializerView,
        b: SerializerView,
        ra: Result<(), SerializeError>,
        rb: Result<(), SerializeError>,
    |
        #![trigger x.write_spec(s, a, ra), x.write_spec(s, b, rb)]
        x.write_spec(s, a, ra) && x.write_spec(s, b, rb) implies a == b && (ra is Ok <==> rb is Ok) by {
        lemma_items_write_determined(x@, s, a, b, ra, rb);
    }
    assert forall|
        x: [T; N],
        s: SerializerView,
        a: SerializerView,
        b: SerializerView,
        ra: Result<(), SerializeError>,
        rb: Result<(), SerializeError>,
    |
        #![trigger x.resolve_spec(s, a, ra), x.resolve_spec(s, b, rb)]
        x.resolve_spec(s, a, ra) && x.resolve_spec(s, b, rb) implies a == b && (ra is Ok <==> rb is Ok) by {
        lemma_items_resolve_determined(x@, s, a, b, ra, rb);
    }
}

/// An ID written without a fixup reads back: where a serializer, padded to the ID's
/// alignment, wrote its two halves, in the file that any later state finishes, read
/// with the type names of its header, with the cursor where it was written, the
/// cursor can be aligned, reading an ID without a fixup there succeeds, gives the
/// same halves, and leaves the cursor just past them.
pub proof fn lemma_without_fixup_reads_back<'a, T: ResourceID>(
    w: FixupFreeSer<'a, T>,
    s: SerializerView,
    s2: SerializerView,
    f: SerializerView,
    d: DeserializerView,
    d2: DeserializerView,
    r: Result<FixupFreeDe<T>, DeserializeError>,
)
    requires
        s.wf(),
        w.write_spec(s.aligned(w.alignment_spec() as nat), s2, Ok(())),
        s2.extended_by(f),
        reads_file(f, d),
        d.pos == s.buffer.len(),
        FixupFreeDe::<T>::read_spec(d.after_align(T::ALIGNMENT), d2, r),
    ensures
        d.align_ok(T::ALIGNMENT),
        r matches Ok(v) && v.id().spec_high() == w.0.spec_high() && v.id().spec_low() == w.0.spec_low(),
        d2.pos == s2.buffer.len(),
        d2.data == d.data,
        d2.type_names == d.type_names,
{
    T::alignment_is_positive();
    let al = T::ALIGNMENT;
    let a = s.aligned(al as nat);
    let high = w.0.spec_high() as nat;
    let low = w.0.spec_low() as nat;
    let bytes = le_bytes(high, 4) + le_bytes(low, 4);
    lemma_pow256_values();
    lemma_le_roundtrip(high, 4);
    lemma_le_roundtrip(low, 4);
    lemma_append_wf(s, zeros(padding_for(s.buffer.len(), al as nat)));
    assert(s2 == a.append(bytes));
    assert(f.buffer.len() >= s2.buffer.len());
    lemma_same_padding(s.buffer.len(), al);
    let da = d.after_align(al);
    assert(da.pos == a.buffer.len());
    lemma_written_bytes_read_back(a, f, bytes, da);
    assert(da.bytes_at_cursor(8).subrange(0, 4) =~= le_bytes(high, 4));
    assert(da.bytes_at_cursor(8).subrange(4, 8) =~= le_bytes(low, 4));
}

/// An empty array reference reads back as an empty array: where a serializer, with
/// the data section a multiple of 8 long, wrote a reference to an empty array, any
/// later state of the serializer finishes a file in which reading an array reference
/// with the cursor where it was written succeeds, gives no elements, and moves the
/// cursor past the two pointers.
pub proof fn lemma_empty_array_ref_reads_back<'a, T: Bin1Serialize + Aligned + Bin1Deserialize>(
    w: ArrayRefSer<'a, T>,
    before: SerializerView,
    written: SerializerView,
    fin: SerializerView,
    de: DeserializerView,
    after: DeserializerView,
    r: Result<ArrayRefDe<T>, DeserializeError>,
)
    requires
        w.0@.len() == 0,
        before.wf(),
        (before.buffer.len() - 16) % 8 == 0,
        w.write_spec(before, written, Ok(())),
        written.extended_by(fin),
        reads_file(fin, de),
        de.pos == before.buffer.len(),
        ArrayRefDe::<T>::read_spec(de, after, r),
    ensures
        r matches Ok(u) && u.items().len() == 0,
        after.pos == de.pos + 16,
{
    let n = NULL_POINTER_ID;
    let s1 = before.after_pointer(n);
    let s2 = s1.after_pointer(n);
    assert(written == s2);
    assert(fin.buffer.len() >= written.buffer.len());
    lemma_aligned_noop(before);
    lemma_after_pointer_wf(before, n);
    assert(s1.buffer.len() == before.buffer.len() + 8);
    lemma_aligned_noop(s1);
    lemma_after_pointer_wf(s1, n);
    lemma_extended_by_transitive(s1, s2, fin);
    lemma_pointer_reads_back(before, n, fin, de);
    let second = de.at((de.pos + 8) as u64);
    lemma_pointer_reads_back(s1, n, fin, second);
    lemma_no_padding(de.pos);
    assert(de.align_ok(8));
    assert(de.after_align(8) == de);
    assert(de.can_read(16));
    assert(de.after_read(8) == second);
    assert(two_words(de) == Some((de.after_read(16), n, n)));
}

/// A vector stored inline reads back: where a serializer, with the data section a
/// multiple of 8 long, wrote a vector of fewer than 256 elements, of a type whose
/// values read back, stored inline, any later state finishes a file in which reading
/// a vector with the cursor where it was written succeeds, gives those elements in
/// order, and moves the cursor past the vector's 24 bytes.
pub proof fn lemma_inline_vec_reads_back<T: Bin1Serialize + Aligned + Bin1Deserialize>(
    v: Vec<T>,
    before: SerializerView,
    written: SerializerView,
    fin: SerializerView,
    de: DeserializerView,
    after: DeserializerView,
    r: Result<Vec<T>, DeserializeError>,
)
    requires
        values_read_back::<T>(),
        0 < v@.len() < 256,
        is_inline(v@.len(), T::SIZE as nat),
        before.wf(),
        (before.buffer.len() - 16) % 8 == 0,
        v.write_spec(before, written, Ok(())),
        written.extended_by(fin),
        reads_file(fin, de),
        de.pos == before.buffer.len(),
        Vec::<T>::read_spec(de, after, r),
    ensures
        r matches Ok(u) && u@ == v@,
        after.pos == de.pos + 24,
{
    let n = v@.len();
    let address = choose|address: u64|
        #![trigger tarray_write_spec(v@, T::SIZE as nat, address, before, written, Ok(()))]
        tarray_write_spec(v@, T::SIZE as nat, address, before, written, Ok(()));
    let (mid, r1) = choose|mid: SerializerView, r1: Result<(), SerializeError>|
        #![trigger items_write_spec(v@, before, mid, r1)]
        items_write_spec(v@, before, mid, r1) && before.extended_by(mid) && mid.wf() && if r1 is Err {
            written == mid && Ok::<(), SerializeError>(()) == r1
        } else if mid.buffer.len() - before.buffer.len() > 16 {
            written == mid && Ok::<(), SerializeError>(()) == Err::<(), SerializeError>(
                SerializeError::InlineArrayTooLarge,
            )
        } else {
            written == mid.append(zeros(inline_padding(before.buffer.len(), mid.buffer.len()))).append(
                le_bytes(inline_flags(n) as nat, 8),
            ) && Ok::<(), SerializeError>(()) is Ok
        };
    assert(r1 is Ok);
    let ws = choose|states: Seq<SerializerView>|
        #![trigger written_in_order(v@, states)]
        written_in_order(v@, states) && states[0] == before && states.last() == mid;
    let flags = inline_flags(n);
    let mid2 = mid.append(zeros(inline_padding(before.buffer.len(), mid.buffer.len())));
    lemma_append_wf(mid, zeros(inline_padding(before.buffer.len(), mid.buffer.len())));
    lemma_append_wf(mid2, le_bytes(flags as nat, 8));
    assert(written == mid2.append(le_bytes(flags as nat, 8)));
    assert(mid2.buffer.len() == before.buffer.len() + 16);
    lemma_extended_by_transitive(mid2, written, fin);
    lemma_extended_by_transitive(mid, mid2, fin);
    lemma_pow256_values();
    let third = de.at((de.pos + 16) as u64);
    assert(fin.buffer.len() >= written.buffer.len());
    lemma_written_value_reads_back(mid2, fin, flags as nat, 8, third);
    lemma_no_padding(de.pos);
    assert(de.after_align(8) == de);
    assert(de.seek_by(16) matches Ok(b) && b == third);
    assert(array_flags(de) == Some((third.after_read(8), flags)));
    assert(flags != NULL_POINTER_ID);
    assert((flags / INLINE_FLAG) % 2 == 1);
    assert(flags % 256 == n);
    lemma_written_states(v@, ws, 0);
    assert forall|i: int| 0 <= i < ws.len() implies (#[trigger] ws[i]).extended_by(fin) by {
        lemma_chain(ws, i, ws.len() - 1);
        lemma_extended_by_transitive(ws[i], mid, fin);
    }
    if r is Err {
        let (values, rs) = choose|values: Seq<T>, states: Seq<DeserializerView>|
            #![trigger crate::types::array::read_stopped(values, states)]
            values.len() < flags % 256 && crate::types::array::read_stopped(values, states)
                && states[0] == tarray_elements(de, flags);
        assert(rs[0] == de);
        lemma_elements_read_back(v@, ws, values, rs, fin, 0);
        let m = values.len() as int;
        let d = rs[m];
        assert(d == rs.last());
        assert(d.pos == ws[m].buffer.len() && reads_file(fin, d));
        assert(v@[m].write_spec(ws[m].aligned(v@[m].alignment_spec() as nat), ws[m + 1], Ok(())));
        assert(ws[m + 1].extended_by(fin));
        assert(ws[m].wf());
        assert(d.align_ok(T::ALIGNMENT));
        if !d.align_ok(T::ALIGNMENT) {
        } else {
            let (d2, e) = choose|s2: DeserializerView, e: DeserializeError|
                #![trigger T::read_spec(d.after_align(T::ALIGNMENT), s2, Err(e))]
                T::read_spec(d.after_align(T::ALIGNMENT), s2, Err(e));
            assert(T::read_spec(d.after_align(T::ALIGNMENT), d2, Err(e)));
        }
        assert(false);
    }
    let u = r->Ok_0;
    let rs = choose|states: Seq<DeserializerView>|
        #![trigger read_in_order(u@, states)]
        read_in_order(u@, states) && states[0] == tarray_elements(de, flags) && ((flags / INLINE_FLAG)
            % 2 != 1 ==> states.last().pos == crate::types::array::aligned_word(de, 1).wrapping_add(16));
    assert(rs[0] == de);
    lemma_elements_read_back(v@, ws, u@, rs, fin, 0);
    assert(u@ =~= v@);
}

/// Whether writing a value of `T`, and then its pointees, are determined by the
/// state that each starts from: the same value written, or resolved, from the same
/// state gives the same state, and succeeds either both times or neither.
pub open spec fn writes_determined<T: Bin1Serialize>() -> bool {
    &&& forall|
        x: T,
        s: SerializerView,
        a: SerializerView,
        b: SerializerView,
        ra: Result<(), SerializeError>,
        rb: Result<(), SerializeError>,
    |
        #![trigger x.write_spec(s, a, ra), x.write_spec(s, b, rb)]
        x.write_spec(s, a, ra) && x.write_spec(s, b, rb) ==> a == b && (ra is Ok <==> rb is Ok)
    &&& forall|
        x: T,
        s: SerializerView,
        a: SerializerView,
        b: SerializerView,
        ra: Result<(), SerializeError>,
        rb: Result<(), SerializeError>,
    |
        #![trigger x.resolve_spec(s, a, ra), x.resolve_spec(s, b, rb)]
        x.resolve_spec(s, a, ra) && x.resolve_spec(s, b, rb) ==> a == b && (ra is Ok <==> rb is Ok)
}

/// Whether every successful write of a value of `T`, padded to its alignment, from
/// a state with a header leaves the data section a multiple of `T`'s alignment long.
pub open spec fn values_end_aligned<T: Bin1Serialize + Aligned>() -> bool {
    forall|x: T, s: SerializerView, s2: SerializerView|
        #![trigger x.write_spec(s.aligned(x.alignment_spec() as nat), s2, Ok(()))]
        s.buffer.len() >= 16 && x.write_spec(s.aligned(x.alignment_spec() as nat), s2, Ok(()))
            ==> (s2.buffer.len() - 16) % (T::ALIGNMENT as int) == 0
}

/// Padding to an alignment leaves the data section a multiple of it long, and does
/// not shorten the buffer.
proof fn lemma_aligned_len(v: SerializerView, alignment: nat)
    requires
        v.buffer.len() >= 16,
        alignment > 0,
    ensures
        (v.aligned(alignment).buffer.len() - 16) % (alignment as int) == 0,
        v.aligned(alignment).buffer.len() >= v.buffer.len(),
{
    let len = v.buffer.len();
    let p = padding_for(len, alignment);
    assert(((len - 16) + p) % (alignment as int) == 0) by (nonlinear_arith)
        requires
            p == (alignment - ((len - 16) as nat % alignment)) % (alignment as int),
            len >= 16,
            alignment > 0,
    ;
}

/// Where the cursor is a multiple of an alignment past the start of the data
/// section, aligning it succeeds and does not move it.
proof fn lemma_aligned_cursor(d: DeserializerView, alignment: usize)
    requires
        alignment > 0,
        d.pos >= 16,
        d.pos <= usize::MAX,
        (d.pos - 16) % (alignment as int) == 0,
    ensures
        d.align_ok(alignment),
        d.after_align(alignment) == d,
{
    let rel = d.pos.wrapping_sub(16);
    assert(rel == d.pos - 16);
    assert((rel as usize) == rel);
    let a = alignment as int;
    assert((a - (rel as int) % a) % a == 0) by (nonlinear_arith)
        requires
            (rel as int) % a == 0,
            a > 0,
    ;
    assert(de_padding(d.pos, alignment) == 0);
    assert(d.at(d.pos) == d);
}

/// A file holding a vector with no pointers reads back. Where a serializer holding
/// only a header serialized a vector, empty or stored inline, of a type whose values
/// read back (it wrote the vector as the root, giving `written`, then its pointees,
/// giving `resolved`, and finished the file as `bytes`), a deserializer over those
/// bytes reads the header without an error, with the cursor at the start of the data
/// section, then reads a vector with the same elements, in order, and leaves the
/// cursor past the vector's 24 bytes.
pub proof fn lemma_vec_file_reads_back<T: Bin1Serialize + Aligned + Bin1Deserialize>(
    v: Vec<T>,
    start: SerializerView,
    written: SerializerView,
    resolved: SerializerView,
    bytes: Seq<u8>,
    read: DeserializerView,
    r: Result<Vec<T>, DeserializeError>,
)
    requires
        values_read_back::<T>(),
        v@.len() == 0 || (v@.len() < 256 && is_inline(v@.len(), T::SIZE as nat)),
        start.wf(),
        start.buffer.len() == 16,
        v.write_spec(start.rooted(v.alignment_spec()), written, Ok(())),
        written.extended_by(resolved),
        resolved.wf(),
        resolved.finish_outcome() == Ok::<Seq<u8>, SerializeError>(bytes),
        bytes.len() <= usize::MAX,
        Vec::<T>::read_spec(
            DeserializerView { data: bytes, pos: 0, type_names: Map::empty() }.header_read().0,
            read,
            r,
        ),
    ensures
        ({
            let fresh = DeserializerView { data: bytes, pos: 0, type_names: Map::empty() };
            &&& fresh.header_read().1 is None
            &&& fresh.header_read().0.pos == 16
            &&& r matches Ok(u) && u@ == v@
            &&& read.pos == 16 + 24
        }),
{
    let fresh = DeserializerView { data: bytes, pos: 0, type_names: Map::empty() };
    let s = start.rooted(v.alignment_spec());
    assert(s.buffer.take(4) =~= start.buffer.take(4));
    assert(s.wf());
    assert(resolved.fits_format());
    assert(bytes == resolved.finalised());
    lemma_header_reads_back(resolved, fresh);
    let d = fresh.header_read().0;
    assert(reads_file(resolved, d));
    if v@.len() == 0 {
        lemma_empty_vec_reads_back(v, s, written, Ok(()), resolved, d, read, r);
        assert(r->Ok_0@ =~= v@);
    } else {
        lemma_inline_vec_reads_back(v, s, written, resolved, d, read, r);
    }
}

/// Whether every successful write of a value of `T`, padded to its alignment, adds
/// at least one byte to the buffer.
pub open spec fn values_advance<T: Bin1Serialize>() -> bool {
    forall|x: T, s: SerializerView, s2: SerializerView|
        #![trigger x.write_spec(s.aligned(x.alignment_spec() as nat), s2, Ok(()))]
        s.wf() && x.write_spec(s.aligned(x.alignment_spec() as nat), s2, Ok(())) ==> s.buffer.len()
            < s2.buffer.len()
}

/// Values written one after the other, each adding bytes, leave the buffer longer
/// and longer.
proof fn lemma_positions_increase<T: Bin1Serialize>(items: Seq<T>, ws: Seq<SerializerView>, i: int, j: int)
    requires
        values_advance::<T>(),
        written_in_order(items, ws),
        forall|k: int| 0 <= k < ws.len() ==> (#[trigger] ws[k]).wf(),
        0 <= i < j < ws.len(),
    ensures
        ws[i].buffer.len() + (j - i) <= ws[j].buffer.len(),
    decreases j - i,
{
    assert(items[i].write_spec(ws[i].aligned(items[i].alignment_spec() as nat), ws[i + 1], Ok(())));
    if i + 1 < j {
        lemma_positions_increase(items, ws, i + 1, j);
    }
}

/// A vector stored behind pointers reads back: where a serializer, with the data
/// section a multiple of 8 long, wrote the three pointers of a vector that is not
/// stored inline, with pointer IDs made from `address`, and later, its start pointer
/// not yet registered, wrote its elements as that pointer's pointee (padded to their
/// alignment, as resolving the vector does), of a type whose values read back and
/// take bytes, any later state that keeps the offsets of the two pointer IDs and is
/// under 2^62 bytes finishes a file in which reading a vector with the cursor where
/// its pointers were written succeeds, gives those elements in order, and moves the
/// cursor past the three pointers.
#[verifier::rlimit(40)]
#[verifier::spinoff_prover]
pub proof fn lemma_pointed_vec_reads_back<T: Bin1Serialize + Aligned + Bin1Deserialize>(
    v: Vec<T>,
    address: u64,
    before: SerializerView,
    written: SerializerView,
    s1: SerializerView,
    elements: SerializerView,
    fin: SerializerView,
    de: DeserializerView,
    after: DeserializerView,
    r: Result<Vec<T>, DeserializeError>,
)
    requires
        values_read_back::<T>(),
        values_advance::<T>(),
        v@.len() > 0,
        !is_inline(v@.len(), T::SIZE as nat),
        (address | START_ID_TAG) | END_ID_TAG != NULL_POINTER_ID,
        before.wf(),
        (before.buffer.len() - 16) % 8 == 0,
        tarray_write_spec(v@, T::SIZE as nat, address, before, written, Ok(())),
        written.extended_by(s1),
        s1.wf(),
        !s1.offsets.contains_key(address | START_ID_TAG),
        items_write_spec(
            v@,
            s1.aligned(T::ALIGNMENT as nat).registered(address | START_ID_TAG),
            elements,
            Ok(()),
        ),
        elements.extended_by(fin),
        reads_file(fin, de),
        fin.offsets[address | START_ID_TAG] == s1.aligned(T::ALIGNMENT as nat).buffer.len() - 16,
        fin.offsets[(address | START_ID_TAG) | END_ID_TAG] == elements.buffer.len() - 16,
        de.pos == before.buffer.len(),
        Vec::<T>::read_spec(de, after, r),
    ensures
        r matches Ok(u) && u@ == v@,
        after.pos == de.pos + 24,
{
    let sid = address | START_ID_TAG;
    let eid = sid | END_ID_TAG;
    let n = v@.len();
    assert(sid != NULL_POINTER_ID) by {
        assert(sid | 0xCAFE_0000_0000_0000 != 0xFFFF_FFFF_FFFF_FFFF ==> sid != 0xFFFF_FFFF_FFFF_FFFF)
            by (bit_vector);
    }
    let sa = before.after_pointer(sid);
    let sb = sa.after_pointer(eid);
    let sc = sb.after_pointer(eid);
    assert(written == sc);
    // The pointee's elements extend the state after the three pointers.
    let al = s1.aligned(T::ALIGNMENT as nat);
    let p0 = al.registered(sid);
    lemma_append_wf(s1, zeros(padding_for(s1.buffer.len(), T::ALIGNMENT as nat)));
    lemma_registered_wf(al, sid);
    lemma_extended_by_transitive(s1, al, p0);
    let ws = choose|states: Seq<SerializerView>|
        #![trigger written_in_order(v@, states)]
        written_in_order(v@, states) && states[0] == p0 && states.last() == elements;
    lemma_written_states(v@, ws, 0);
    lemma_chain(ws, 0, ws.len() - 1);
    lemma_extended_by_transitive(p0, elements, fin);
    lemma_extended_by_transitive(s1, p0, fin);
    lemma_extended_by_transitive(written, s1, fin);
    assert forall|i: int| 0 <= i < ws.len() implies (#[trigger] ws[i]).extended_by(fin) by {
        lemma_chain(ws, i, ws.len() - 1);
        lemma_extended_by_transitive(ws[i], elements, fin);
    }
    // The three pointers.
    assert(fin.buffer.len() >= written.buffer.len());
    lemma_aligned_noop(before);
    lemma_after_pointer_wf(before, sid);
    assert(sa.buffer.len() == before.buffer.len() + 8);
    lemma_aligned_noop(sa);
    lemma_after_pointer_wf(sa, eid);
    assert(sb.buffer.len() == before.buffer.len() + 16);
    lemma_aligned_noop(sb);
    lemma_after_pointer_wf(sb, eid);
    lemma_extended_by_transitive(sb, sc, fin);
    lemma_extended_by_transitive(sa, sb, fin);
    let q = de.pos;
    lemma_pointer_reads_back(before, sid, fin, de);
    lemma_pointer_reads_back(sa, eid, fin, de.at((q + 8) as u64));
    lemma_pointer_reads_back(sb, eid, fin, de.at((q + 16) as u64));
    lemma_no_padding(de.pos);
    assert(de.after_align(8) == de);
    assert(aligned_word(de, 0) == fin.offsets[sid]);
    assert(aligned_word(de, 1) == fin.offsets[eid]);
    let flags = fin.offsets[eid];
    assert(de.seek_by(16) matches Ok(b) && b == de.at((q + 16) as u64));
    assert(array_flags(de) == Some((de.at((q + 16) as u64).after_read(8), flags)));
    assert(elements.buffer.len() <= fin.buffer.len());
    assert(flags < 0x4000_0000_0000_0000);
    assert(flags != NULL_POINTER_ID);
    assert((flags / INLINE_FLAG) % 2 != 1);
    // The elements.
    assert(p0.buffer.len() == al.buffer.len());
    assert(tarray_elements(de, flags) == de.at(al.buffer.len() as u64));
    if r is Err {
        let (values, rs) = choose|values: Seq<T>, states: Seq<DeserializerView>|
            #![trigger read_in_order(values, states)]
            read_in_order(values, states) && states[0] == tarray_elements(de, flags) && (forall|k: int|
                0 <= k < states.len() ==> (#[trigger] states[k]).pos != aligned_word(de, 1).wrapping_add(
                    16,
                )) && (values.len() >= de.data.len() || crate::types::array::read_stopped(values, states));
        assert(rs[0].pos == ws[0].buffer.len());
        lemma_elements_read_back(v@, ws, values, rs, fin, 0);
        let m = values.len() as int;
        if m >= n {
            assert(rs[n as int].pos == ws[n as int].buffer.len());
            assert(ws[n as int] == elements);
            assert(rs[n as int].pos != aligned_word(de, 1).wrapping_add(16));
            assert(false);
        }
        lemma_positions_increase(v@, ws, 0, n as int);
        lemma_patch_outside_len(fin);
        assert(fin.finalised().len() >= fin.buffer.len());
        assert(values.len() < de.data.len());
        let d = rs[m];
        assert(d == rs.last());
        assert(d.pos == ws[m].buffer.len() && reads_file(fin, d));
        assert(v@[m].write_spec(ws[m].aligned(v@[m].alignment_spec() as nat), ws[m + 1], Ok(())));
        assert(ws[m + 1].extended_by(fin));
        assert(ws[m].wf());
        assert(d.align_ok(T::ALIGNMENT));
        if d.align_ok(T::ALIGNMENT) {
            let (d2, e) = choose|s2: DeserializerView, e: DeserializeError|
                #![trigger T::read_spec(d.after_align(T::ALIGNMENT), s2, Err(e))]
                T::read_spec(d.after_align(T::ALIGNMENT), s2, Err(e));
            assert(T::read_spec(d.after_align(T::ALIGNMENT), d2, Err(e)));
        }
        assert(false);
    }
    let u = r->Ok_0;
    let rs = choose|states: Seq<DeserializerView>|
        #![trigger read_in_order(u@, states)]
        read_in_order(u@, states) && states[0] == tarray_elements(de, flags) && states.last().pos
            == aligned_word(de, 1).wrapping_add(16) && forall|k: int|
            0 <= k < u@.len() ==> (#[trigger] states[k]).pos != aligned_word(de, 1).wrapping_add(16);
    assert(rs[0] == de.at(al.buffer.len() as u64));
    assert(rs[0].pos == ws[0].buffer.len());
    let target = elements.buffer.len();
    assert(rs.last().pos == target);
    if u@.len() > n {
        lemma_elements_read_back(v@, ws, u@, rs, fin, 0);
        assert(rs[n as int].pos == ws[n as int].buffer.len());
        assert(ws[n as int] == elements);
        assert(rs[n as int].pos != aligned_word(de, 1).wrapping_add(16));
        assert(false);
    }
    lemma_elements_read_back(v@, ws, u@, rs, fin, 0);
    if u@.len() < n {
        lemma_positions_increase(v@, ws, u@.len() as int, n as int);
        assert(false);
    }
    assert(u@ =~= v@);
}

/// An array reference reads back: where a serializer, with the data section a
/// multiple of 8 long, wrote a reference to a nonempty array, of a type whose values
/// read back and whose writes add bytes, as the pointers `start_id` and `end_id`, and
/// a later state `s1` wrote the elements, padded to their alignment, after
/// registering `start_id` there, any later state in which `start_id` and `end_id` are
/// registered where the elements begin and end finishes a file in which reading an
/// array reference with the cursor where it was written succeeds, gives those
/// elements in order, and moves the cursor past the two pointers.
#[verifier::rlimit(40)]
#[verifier::spinoff_prover]
pub proof fn lemma_array_ref_reads_back<'a, T: Bin1Serialize + Aligned + Bin1Deserialize>(
    w: ArrayRefSer<'a, T>,
    start_id: u64,
    end_id: u64,
    before: SerializerView,
    written: SerializerView,
    s1: SerializerView,
    elements: SerializerView,
    fin: SerializerView,
    de: DeserializerView,
    after: DeserializerView,
    r: Result<ArrayRefDe<T>, DeserializeError>,
)
    requires
        values_read_back::<T>(),
        values_advance::<T>(),
        w.0@.len() > 0,
        start_id != NULL_POINTER_ID,
        end_id != NULL_POINTER_ID,
        before.wf(),
        (before.buffer.len() - 16) % 8 == 0,
        written == before.after_pointer(start_id).after_pointer(end_id),
        written.extended_by(s1),
        s1.wf(),
        items_write_spec(
            w.0@,
            s1.aligned(T::ALIGNMENT as nat).registered(start_id),
            elements,
            Ok(()),
        ),
        elements.extended_by(fin),
        reads_file(fin, de),
        fin.offsets[start_id] == s1.aligned(T::ALIGNMENT as nat).buffer.len() - 16,
        fin.offsets[end_id] == elements.buffer.len() - 16,
        de.pos == before.buffer.len(),
        ArrayRefDe::<T>::read_spec(de, after, r),
    ensures
        r matches Ok(u) && u.items() == w.0@,
        after.pos == de.pos + 16,
{
    let items = w.0@;
    let n = items.len();
    let sa = before.after_pointer(start_id);
    // The pointee's elements extend the state after the two pointers.
    let al = s1.aligned(T::ALIGNMENT as nat);
    let p0 = al.registered(start_id);
    lemma_append_wf(s1, zeros(padding_for(s1.buffer.len(), T::ALIGNMENT as nat)));
    lemma_registered_wf(al, start_id);
    lemma_extended_by_transitive(s1, al, p0);
    let ws = choose|states: Seq<SerializerView>|
        #![trigger written_in_order(items, states)]
        written_in_order(items, states) && states[0] == p0 && states.last() == elements;
    assert(elements.buffer.len() <= fin.buffer.len());
    lemma_written_states(items, ws, 0);
    lemma_chain(ws, 0, ws.len() - 1);
    lemma_extended_by_transitive(p0, elements, fin);
    lemma_extended_by_transitive(s1, p0, fin);
    lemma_extended_by_transitive(written, s1, fin);
    assert forall|i: int| 0 <= i < ws.len() implies (#[trigger] ws[i]).extended_by(fin) by {
        lemma_chain(ws, i, ws.len() - 1);
        lemma_extended_by_transitive(ws[i], elements, fin);
    }
    // The two pointers.
    assert(fin.buffer.len() >= written.buffer.len());
    lemma_aligned_noop(before);
    lemma_after_pointer_wf(before, start_id);
    assert(sa.buffer.len() == before.buffer.len() + 8);
    lemma_aligned_noop(sa);
    lemma_after_pointer_wf(sa, end_id);
    lemma_extended_by_transitive(sa, written, fin);
    let q = de.pos;
    let second = de.at((q + 8) as u64);
    lemma_pointer_reads_back(before, start_id, fin, de);
    lemma_pointer_reads_back(sa, end_id, fin, second);
    lemma_no_padding(de.pos);
    assert(de.align_ok(8));
    assert(de.after_align(8) == de);
    assert(de.can_read(16));
    assert(de.after_read(8) == second);
    let s = fin.offsets[start_id];
    let e = fin.offsets[end_id];
    assert(two_words(de) == Some((de.after_read(16), s, e)));
    assert(s.wrapping_add(16) == al.buffer.len());
    assert(e.wrapping_add(16) == elements.buffer.len());
    // The elements.
    assert(p0.buffer.len() == al.buffer.len());
    assert(reads_file(fin, de.at(s.wrapping_add(16))));
    if r is Err {
        let (values, rs) = choose|values: Seq<T>, states: Seq<DeserializerView>|
            #![trigger read_in_order(values, states)]
            read_in_order(values, states) && states[0] == de.at(s.wrapping_add(16)) && (forall|k: int|
                0 <= k < states.len() ==> (#[trigger] states[k]).pos != e.wrapping_add(16)) && (
            values.len() >= de.data.len() || crate::types::array::read_stopped(values, states));
        assert(rs[0].pos == ws[0].buffer.len());
        lemma_elements_read_back(items, ws, values, rs, fin, 0);
        let m = values.len() as int;
        if m >= n {
            assert(rs[n as int].pos == ws[n as int].buffer.len());
            assert(ws[n as int] == elements);
            assert(rs[n as int].pos != e.wrapping_add(16));
            assert(false);
        }
        lemma_positions_increase(items, ws, 0, n as int);
        lemma_patch_outside_len(fin);
        assert(fin.finalised().len() >= fin.buffer.len());
        assert(values.len() < de.data.len());
        let d = rs[m];
        assert(d == rs.last());
        assert(d.pos == ws[m].buffer.len() && reads_file(fin, d));
        assert(items[m].write_spec(ws[m].aligned(items[m].alignment_spec() as nat), ws[m + 1], Ok(())));
        assert(ws[m + 1].extended_by(fin));
        assert(ws[m].wf());
        assert(d.align_ok(T::ALIGNMENT));
        if d.align_ok(T::ALIGNMENT) {
            let (d2, e2) = choose|s2: DeserializerView, e2: DeserializeError|
                #![trigger T::read_spec(d.after_align(T::ALIGNMENT), s2, Err(e2))]
                T::read_spec(d.after_align(T::ALIGNMENT), s2, Err(e2));
            assert(T::read_spec(d.after_align(T::ALIGNMENT), d2, Err(e2)));
        }
        assert(false);
    }
    let u = r->Ok_0;
    let rs = choose|states: Seq<DeserializerView>|
        #![trigger read_in_order(u.items(), states)]
        read_in_order(u.items(), states) && states[0] == de.at(s.wrapping_add(16))
            && states.last().pos == e.wrapping_add(16) && forall|k: int|
            0 <= k < u.items().len() ==> (#[trigger] states[k]).pos != e.wrapping_add(16);
    assert(rs[0].pos == ws[0].buffer.len());
    if u.items().len() > n {
        lemma_elements_read_back(items, ws, u.items(), rs, fin, 0);
        assert(rs[n as int].pos == ws[n as int].buffer.len());
        assert(ws[n as int] == elements);
        assert(rs[n as int].pos != e.wrapping_add(16));
        assert(false);
    }
    lemma_elements_read_back(items, ws, u.items(), rs, fin, 0);
    if u.items().len() < n {
        lemma_positions_increase(items, ws, u.items().len() as int, n as int);
        assert(false);
    }
    assert(u.items() =~= items);
}

/// A pointer with a length reads back: where a serializer, with the data section a
/// multiple of 8 long, wrote a nonempty array, of a type whose values read back, as
/// the pointer `start_id` and the array's length, and a later state `s1` wrote the
/// elements, padded to their alignment, after registering `start_id` there, any
/// later state in which `start_id` is registered where the elements begin finishes a
/// file in which reading a pointer with a length with the cursor where it was written
/// succeeds, gives those elements in order, and moves the cursor past the pointer
/// and the length.
#[verifier::rlimit(40)]
#[verifier::spinoff_prover]
pub proof fn lemma_ptr_len_reads_back<'a, T: Bin1Serialize + Aligned + Bin1Deserialize>(
    w: PtrLenSer<'a, T>,
    start_id: u64,
    before: SerializerView,
    written: SerializerView,
    s1: SerializerView,
    elements: SerializerView,
    fin: SerializerView,
    de: DeserializerView,
    after: DeserializerView,
    r: Result<PtrLenDe<T>, DeserializeError>,
)
    requires
        values_read_back::<T>(),
        w.0@.len() > 0,
        start_id != NULL_POINTER_ID,
        before.wf(),
        (before.buffer.len() - 16) % 8 == 0,
        written == before.after_pointer(start_id).aligned(8).append(le_bytes(w.0@.len(), 8)),
        written.extended_by(s1),
        s1.wf(),
        items_write_spec(
            w.0@,
            s1.aligned(T::ALIGNMENT as nat).registered(start_id),
            elements,
            Ok(()),
        ),
        elements.extended_by(fin),
        reads_file(fin, de),
        fin.offsets[start_id] == s1.aligned(T::ALIGNMENT as nat).buffer.len() - 16,
        de.pos == before.buffer.len(),
        PtrLenDe::<T>::read_spec(de, after, r),
    ensures
        r matches Ok(u) && u.items() == w.0@,
        after.pos == de.pos + 16,
{
    let items = w.0@;
    let n = items.len();
    let sa = before.after_pointer(start_id);
    // The pointee's elements extend the state after the pointer and the length.
    let al = s1.aligned(T::ALIGNMENT as nat);
    let p0 = al.registered(start_id);
    lemma_append_wf(s1, zeros(padding_for(s1.buffer.len(), T::ALIGNMENT as nat)));
    lemma_registered_wf(al, start_id);
    lemma_extended_by_transitive(s1, al, p0);
    let ws = choose|states: Seq<SerializerView>|
        #![trigger written_in_order(items, states)]
        written_in_order(items, states) && states[0] == p0 && states.last() == elements;
    assert(elements.buffer.len() <= fin.buffer.len());
    lemma_written_states(items, ws, 0);
    lemma_chain(ws, 0, ws.len() - 1);
    lemma_extended_by_transitive(p0, elements, fin);
    lemma_extended_by_transitive(s1, p0, fin);
    lemma_extended_by_transitive(written, s1, fin);
    assert forall|i: int| 0 <= i < ws.len() implies (#[trigger] ws[i]).extended_by(fin) by {
        lemma_chain(ws, i, ws.len() - 1);
        lemma_extended_by_transitive(ws[i], elements, fin);
    }
    // The pointer and the length.
    assert(fin.buffer.len() >= written.buffer.len());
    lemma_aligned_noop(before);
    lemma_after_pointer_wf(before, start_id);
    assert(sa.buffer.len() == before.buffer.len() + 8);
    lemma_aligned_noop(sa);
    assert(sa.aligned(8) == sa);
    lemma_append_wf(sa, le_bytes(n, 8));
    lemma_extended_by_transitive(sa, written, fin);
    let q = de.pos;
    let second = de.at((q + 8) as u64);
    lemma_pointer_reads_back(before, start_id, fin, de);
    lemma_pow256_values();
    assert(w.0.len() == n);
    assert(n < pow256(8));
    lemma_written_value_reads_back(sa, fin, n, 8, second);
    lemma_no_padding(de.pos);
    assert(de.align_ok(8));
    assert(de.after_align(8) == de);
    assert(de.can_read(16));
    assert(de.after_read(8) == second);
    let s = fin.offsets[start_id];
    assert(two_words(de) == Some((de.after_read(16), s, n as u64)));
    assert(s.wrapping_add(16) == al.buffer.len());
    // The elements.
    assert(p0.buffer.len() == al.buffer.len());
    assert(reads_file(fin, de.at(s.wrapping_add(16))));
    lemma_written_states(items, ws, 0);
    if r is Err {
        let (values, rs) = choose|values: Seq<T>, states: Seq<DeserializerView>|
            #![trigger crate::types::array::read_stopped(values, states)]
            values.len() < n && crate::types::array::read_stopped(values, states) && states[0]
                == de.at(s.wrapping_add(16));
        assert(rs[0].pos == ws[0].buffer.len());
        lemma_elements_read_back(items, ws, values, rs, fin, 0);
        let m = values.len() as int;
        let d = rs[m];
        assert(d == rs.last());
        assert(d.pos == ws[m].buffer.len() && reads_file(fin, d));
        assert(items[m].write_spec(ws[m].aligned(items[m].alignment_spec() as nat), ws[m + 1], Ok(())));
        assert(ws[m + 1].extended_by(fin));
        assert(ws[m].wf());
        assert(d.align_ok(T::ALIGNMENT));
        if d.align_ok(T::ALIGNMENT) {
            let (d2, e2) = choose|s2: DeserializerView, e2: DeserializeError|
                #![trigger T::read_spec(d.after_align(T::ALIGNMENT), s2, Err(e2))]
                T::read_spec(d.after_align(T::ALIGNMENT), s2, Err(e2));
            assert(T::read_spec(d.after_align(T::ALIGNMENT), d2, Err(e2)));
        }
        assert(false);
    }
    let u = r->Ok_0;
    let rs = choose|states: Seq<DeserializerView>|
        #![trigger read_in_order(u.items(), states)]
        read_in_order(u.items(), states) && states[0] == de.at(s.wrapping_add(16));
    assert(rs[0].pos == ws[0].buffer.len());
    assert(u.items().len() == n);
    lemma_elements_read_back(items, ws, u.items(), rs, fin, 0);
    assert(u.items() =~= items);
}

/// An empty pointer with a length reads back as an empty array: where a serializer,
/// with the data section a multiple of 8 long, wrote an empty array as three null
/// pointers, any later state of the serializer finishes a file in which reading a
/// pointer with a length with the cursor where it was written succeeds and gives no
/// elements; the cursor moves past the first two of the three words only.
pub proof fn lemma_empty_ptr_len_reads_back<'a, T: Bin1Serialize + Aligned + Bin1Deserialize>(
    w: PtrLenSer<'a, T>,
    before: SerializerView,
    written: SerializerView,
    fin: SerializerView,
    de: DeserializerView,
    after: DeserializerView,
    r: Result<PtrLenDe<T>, DeserializeError>,
)
    requires
        w.0@.len() == 0,
        before.wf(),
        (before.buffer.len() - 16) % 8 == 0,
        w.write_spec(before, written, Ok(())),
        written.extended_by(fin),
        reads_file(fin, de),
        de.pos == before.buffer.len(),
        PtrLenDe::<T>::read_spec(de, after, r),
    ensures
        r matches Ok(u) && u.items().len() == 0,
        after.pos == de.pos + 16,
{
    let n = NULL_POINTER_ID;
    let s1 = before.after_pointer(n);
    let s2 = s1.after_pointer(n);
    let s3 = s2.after_pointer(n);
    assert(written == s3);
    assert(fin.buffer.len() >= written.buffer.len());
    lemma_aligned_noop(before);
    lemma_after_pointer_wf(before, n);
    assert(s1.buffer.len() == before.buffer.len() + 8);
    lemma_aligned_noop(s1);
    lemma_after_pointer_wf(s1, n);
    assert(s2.buffer.len() == before.buffer.len() + 16);
    lemma_aligned_noop(s2);
    lemma_after_pointer_wf(s2, n);
    lemma_extended_by_transitive(s2, s3, fin);
    lemma_extended_by_transitive(s1, s2, fin);
    lemma_pointer_reads_back(before, n, fin, de);
    let second = de.at((de.pos + 8) as u64);
    lemma_pointer_reads_back(s1, n, fin, second);
    lemma_no_padding(de.pos);
    assert(de.align_ok(8));
    assert(de.after_align(8) == de);
    assert(de.can_read(16));
    assert(de.after_read(8) == second);
    assert(two_words(de) == Some((de.after_read(16), n, n)));
}

/// Entry `i` of the offset entries of `positions` is the offset of the `i`-th
/// position in the data section, as 4 little-endian bytes.
proof fn lemma_offset_entry(positions: Seq<usize>, i: int)
    requires
        0 <= i < positions.len(),
    ensures
        offset_entries(positions).len() == 4 * positions.len(),
        offset_entries(positions).subrange(4 * i, 4 * i + 4) == le_bytes(
            ((positions[i] - 16) as u32) as nat,
            4,
        ),
    decreases positions.len(),
{
    lemma_offset_entries_len(positions);
    let front = positions.drop_last();
    lemma_offset_entries_len(front);
    let last = le_bytes(((positions.last() - 16) as u32) as nat, 4);
    assert(offset_entries(positions) == offset_entries(front) + last);
    if i < positions.len() - 1 {
        lemma_offset_entry(front, i);
        assert(front[i] == positions[i]);
        assert(offset_entries(positions).subrange(4 * i, 4 * i + 4) =~= offset_entries(front).subrange(
            4 * i,
            4 * i + 4,
        ));
    } else {
        assert(offset_entries(positions).subrange(4 * i, 4 * i + 4) =~= last);
    }
}

/// Whether the bytes of `f` from `b` on are a segment tagged `tag` listing
/// `positions`: the tag, the size of the body, the number of positions, then the
/// offset in the data section of each position, in order, each as 4 little-endian
/// bytes.
pub open spec fn lists_positions(f: Seq<u8>, b: int, tag: u32, positions: Seq<usize>) -> bool {
    let n = positions.len();
    &&& 0 <= b
    &&& b + 12 + 4 * n <= f.len()
    &&& le_value(f.subrange(b, b + 4)) == tag
    &&& le_value(f.subrange(b + 4, b + 8)) == 4 + 4 * n
    &&& le_value(f.subrange(b + 8, b + 12)) == n
    &&& forall|i: int|
        0 <= i < n ==> le_value(#[trigger] f.subrange(b + 12 + 4 * i, b + 16 + 4 * i)) == positions[i] - 16
}

/// A segment of positions in the data section lists them.
proof fn lemma_segment_lists(f: Seq<u8>, b: int, tag: u32, positions: Seq<usize>, len: nat)
    requires
        slots_ok(positions, len),
        len <= u32::MAX,
        0 <= b,
        b + 12 + 4 * positions.len() <= f.len(),
        f.subrange(b, b + 12 + 4 * positions.len()) == segment(tag, positions_body(positions)),
    ensures
        lists_positions(f, b, tag, positions),
{
    let n = positions.len();
    lemma_positions_body_len(positions, len);
    lemma_slot_count(positions, len);
    lemma_offset_entries_len(positions);
    lemma_pow256_values();
    let body = positions_body(positions);
    let d = segment(tag, body);
    assert forall|x: int| 0 <= x < d.len() implies f[b + x] == d[x] by {
        assert(f.subrange(b, b + 12 + 4 * n)[x] == f[b + x]);
    }
    lemma_le_roundtrip(tag as nat, 4);
    lemma_le_roundtrip(body.len(), 4);
    lemma_le_roundtrip(n, 4);
    assert((body.len() as u32) as nat == body.len());
    assert((n as u32) as nat == n);
    let e = offset_entries(positions);
    let t = le_bytes(tag as nat, 4);
    let sz = le_bytes(body.len(), 4);
    let cnt = le_bytes(n, 4);
    assert(d =~= t + sz + cnt + e);
    let fd = f.subrange(b, b + 12 + 4 * n);
    assert(f.subrange(b, b + 4) =~= fd.subrange(0, 4));
    assert(fd.subrange(0, 4) =~= t);
    assert(f.subrange(b + 4, b + 8) =~= fd.subrange(4, 8));
    assert(fd.subrange(4, 8) =~= sz);
    assert(f.subrange(b + 8, b + 12) =~= fd.subrange(8, 12));
    assert(fd.subrange(8, 12) =~= cnt);
    assert forall|i: int| 0 <= i < n implies le_value(#[trigger] f.subrange(b + 12 + 4 * i, b + 16 + 4 * i))
        == positions[i] - 16 by {
        lemma_offset_entry(positions, i);
        assert(16 <= positions[i] && positions[i] + 8 <= len);
        assert(((positions[i] - 16) as u32) as nat == positions[i] - 16);
        lemma_le_roundtrip((positions[i] - 16) as nat, 4);
        assert(f.subrange(b + 12 + 4 * i, b + 16 + 4 * i) =~= fd.subrange(12 + 4 * i, 16 + 4 * i));
        assert(fd.subrange(12 + 4 * i, 16 + 4 * i) =~= e.subrange(4 * i, 4 * i + 4));
    }
}

/// The number of segments that the writes call for: one listing the pointers where
/// pointers were written, one of type IDs where type IDs were written, one listing
/// the runtime resource IDs and one listing the resource pointers where those were
/// written and their segments are enabled.
pub open spec fn written_segment_count(v: SerializerView) -> nat {
    (if v.pointers.len() > 0 { 1nat } else { 0 }) + (if v.type_ids.len() > 0 { 1nat } else { 0 }) + (
    if v.rrids_segment && v.runtime_resource_ids.len() > 0 {
        1nat
    } else {
        0
    }) + (if v.resource_ptrs_segment && v.resource_ptrs.len() > 0 { 1nat } else { 0 })
}

/// The size of a segment listing `n` positions.
pub open spec fn listing_size(n: nat) -> int {
    (12 + 4 * n) as int
}

/// A finished file counts at byte 6 the segments that the writes call for.
pub proof fn lemma_segments_counted(v: SerializerView)
    requires
        v.wf(),
    ensures
        v.finalised()[6] as nat == written_segment_count(v),
{
    lemma_finalised_layout(v);
}

/// The resource pointers are listed for fixing up. Where the resource pointers
/// segment is enabled and resource pointers were written, the finished file ends
/// with a segment tagged `0x578FBCEE` listing the offset in the data section of each
/// resource pointer, in the order they were written, after the data section.
pub proof fn lemma_resource_ptrs_listed(v: SerializerView)
    requires
        v.wf(),
        v.fits_format(),
        v.resource_ptrs_segment,
        v.resource_ptrs.len() > 0,
    ensures
        v.finalised().len() - listing_size(v.resource_ptrs.len()) >= v.buffer.len(),
        lists_positions(
            v.finalised(),
            v.finalised().len() - listing_size(v.resource_ptrs.len()),
            0x578FBCEE,
            v.resource_ptrs,
        ),
{
    let f = v.finalised();
    let rp = v.resource_ptrs;
    lemma_finalised_layout(v);
    lemma_positions_body_len(rp, v.buffer.len());
    let d = segment(RESOURCE_IDS_SEGMENT_TAG, positions_body(rp));
    let segs = v.segments();
    let front = segs.subrange(0, segs.len() - d.len());
    assert(segs =~= front + d);
    let b = f.len() - listing_size(rp.len());
    assert(b == v.buffer.len() + front.len());
    assert(f.subrange(b, b + listing_size(rp.len())) =~= d) by {
        assert forall|x: int| 0 <= x < d.len() implies f[b + x] == d[x] by {
            assert(f.skip(v.buffer.len() as int)[front.len() + x] == segs[front.len() + x]);
        }
    }
    lemma_segment_lists(f, b, RESOURCE_IDS_SEGMENT_TAG, rp, v.buffer.len());
}

/// The runtime resource IDs are listed for fixing up. Where their segment is
/// enabled and runtime resource IDs were written, the finished file holds a segment
/// tagged `0x578FBCEE` listing the offset in the data section of each, in the order
/// they were written, after the data section and followed only by the resource
/// pointers' segment where that is emitted.
pub proof fn lemma_runtime_resource_ids_listed(v: SerializerView)
    requires
        v.wf(),
        v.fits_format(),
        v.rrids_segment,
        v.runtime_resource_ids.len() > 0,
    ensures
        ({
            let tail = if v.resource_ptrs_segment && v.resource_ptrs.len() > 0 {
                listing_size(v.resource_ptrs.len())
            } else {
                0
            };
            let b = v.finalised().len() - tail - listing_size(v.runtime_resource_ids.len());
            &&& b >= v.buffer.len()
            &&& lists_positions(v.finalised(), b, 0x578FBCEE, v.runtime_resource_ids)
        }),
{
    let f = v.finalised();
    let rr = v.runtime_resource_ids;
    let rp = v.resource_ptrs;
    lemma_finalised_layout(v);
    lemma_positions_body_len(rr, v.buffer.len());
    lemma_positions_body_len(rp, v.buffer.len());
    let d = segment(RESOURCE_IDS_SEGMENT_TAG, positions_body(rr));
    let last = if v.has_resource_ptrs_segment() {
        segment(RESOURCE_IDS_SEGMENT_TAG, positions_body(rp))
    } else {
        Seq::empty()
    };
    let tail = if v.resource_ptrs_segment && rp.len() > 0 { listing_size(rp.len()) } else { 0 };
    assert(last.len() == tail);
    let segs = v.segments();
    let front = segs.subrange(0, segs.len() - d.len() - last.len());
    assert(segs =~= front + d + last);
    let b = f.len() - tail - listing_size(rr.len());
    assert(b == v.buffer.len() + front.len());
    assert(f.subrange(b, b + listing_size(rr.len())) =~= d) by {
        assert forall|x: int| 0 <= x < d.len() implies f[b + x] == d[x] by {
            assert(f.skip(v.buffer.len() as int)[front.len() + x] == segs[front.len() + x]);
        }
    }
    lemma_segment_lists(f, b, RESOURCE_IDS_SEGMENT_TAG, rr, v.buffer.len());
}

/// The pointers are listed for rebasing. Where pointers were written, the finished
/// file holds, just after the data section, a segment tagged `0x12EBA5ED` listing
/// the offset in the data section of each pointer, in the order they were written.
pub proof fn lemma_pointers_listed(v: SerializerView)
    requires
        v.wf(),
        v.fits_format(),
        v.pointers.len() > 0,
    ensures
        lists_positions(v.finalised(), v.buffer.len() as int, 0x12EBA5ED, v.pointers),
{
    let f = v.finalised();
    let p = v.pointers;
    lemma_finalised_layout(v);
    assert(slots_ok(p, v.buffer.len()));
    lemma_positions_body_len(p, v.buffer.len());
    let d = segment(REBASE_SEGMENT_TAG, positions_body(p));
    let segs = v.segments();
    assert(segs.subrange(0, d.len() as int) =~= d);
    let b = v.buffer.len() as int;
    assert(f.subrange(b, b + listing_size(p.len())) =~= d) by {
        assert forall|x: int| 0 <= x < d.len() implies f[b + x] == d[x] by {
            assert(f.skip(b)[x] == segs[x]);
        }
    }
    lemma_segment_lists(f, b, REBASE_SEGMENT_TAG, p, v.buffer.len());
}

/// Registering a pointer ID keeps a serializer's state well formed and extends it.
proof fn lemma_registered_wf(v: SerializerView, id: u64)
    requires
        v.wf(),
    ensures
        v.registered(id).wf(),
        v.extended_by(v.registered(id)),
{
    crate::ser::lemma_extended_by_refl(v);
}

} // verus!
