//! Arrays: fixed arrays, written element by element, and dynamic arrays (TArray),
//! written as pointers to their first element, their end and their allocation end,
//! or, when their elements fit in 16 bytes, inline followed by a flags word.
#[allow(non_snake_case)]
pub mod TArrayRef;
#[allow(non_snake_case)]
pub mod ZHMPtrLen;

use vstd::prelude::*;
use crate::bytes::{le_bytes, le_value};
use crate::de::{
    lemma_data_len_fits, lemma_read_twice, Bin1Deserialize, Bin1Deserializer, DeserializeError,
    DeserializerView, IoError,
};
use crate::ser::{
    lemma_extended_by_refl, lemma_extended_by_transitive, zeros, Aligned, Bin1Serialize,
    Bin1Serializer, SerializeError, SerializerView, NULL_POINTER_ID, no_pointees, pointee_spec,
};

verus! {

/// Marks the pointer ID of an array's first element.
pub const START_ID_TAG: u64 = 0xABCD_0000_0000_0000;

/// Marks the pointer ID of an array's end.
pub const END_ID_TAG: u64 = 0xCAFE_0000_0000_0000;

/// The flag that marks an array stored inline.
pub const INLINE_FLAG: u64 = 0x4000_0000_0000_0000;

/// The address of the first element of `items` (`<[T]>::as_ptr`), as an integer.
/// Nothing is stated of it: it is where the allocator placed the elements.
#[verifier::external_body]
pub(crate) fn address_of<T>(items: &[T]) -> u64 {
    items.as_ptr() as usize as u64
}

/// The address just past the last element of `items` (`<[T]>::as_ptr_range`), as
/// an integer. Nothing is stated of it: it is where the allocator placed the elements.
#[verifier::external_body]
pub(crate) fn end_address_of<T>(items: &[T]) -> u64 {
    items.as_ptr_range().end as usize as u64
}

/// Converts a vector into an array (`<[T; N]>::try_from`), which succeeds exactly
/// when the vector has `N` elements, and then holds them in order.
#[verifier::external_body]
fn vec_into_array<T, const N: usize>(v: Vec<T>) -> (r: Result<[T; N], Vec<T>>)
    ensures
        r is Ok <==> v@.len() == N,
        r matches Ok(a) ==> a@ == v@,
{
    <[T; N]>::try_from(v)
}

/// The states `states` of a serializer are those before and after writing each of
/// `items` in order, each after padding the buffer to its alignment, every write
/// succeeding.
pub open spec fn written_in_order<T: Bin1Serialize>(items: Seq<T>, states: Seq<SerializerView>) -> bool {
    &&& states.len() == items.len() + 1
    &&& forall|k: int|
        0 <= k < items.len() ==> #[trigger] items[k].write_spec(
            states[k].aligned(items[k].alignment_spec() as nat),
            states[k + 1],
            Ok(()),
        )
}

/// What writing `items` one after the other, each after padding to its alignment,
/// does: all of them are written and `Ok` is returned, or the first few are written
/// and the next one fails, its error being returned.
pub open spec fn items_write_spec<T: Bin1Serialize>(
    items: Seq<T>,
    before: SerializerView,
    after: SerializerView,
    r: Result<(), SerializeError>,
) -> bool {
    ||| r is Ok && exists|states: Seq<SerializerView>|
        #![trigger written_in_order(items, states)]
        written_in_order(items, states) && states[0] == before && states.last() == after
    ||| r is Err && exists|states: Seq<SerializerView>|
        #![trigger written_in_order(items.take(states.len() - 1), states)]
        1 <= states.len() <= items.len() && written_in_order(items.take(states.len() - 1), states)
            && states[0] == before && items[states.len() - 1].write_spec(
            states.last().aligned(items[states.len() - 1].alignment_spec() as nat),
            after,
            r,
        )
}

/// The states `states` of a serializer are those before and after resolving each
/// of `items` in order, every resolve succeeding.
pub open spec fn resolved_in_order<T: Bin1Serialize>(items: Seq<T>, states: Seq<SerializerView>) -> bool {
    &&& states.len() == items.len() + 1
    &&& forall|k: int|
        0 <= k < items.len() ==> #[trigger] items[k].resolve_spec(states[k], states[k + 1], Ok(()))
}

/// What resolving `items` one after the other does: all of them are resolved and
/// `Ok` is returned, or the first few are resolved and the next one fails, its
/// error being returned.
pub open spec fn items_resolve_spec<T: Bin1Serialize>(
    items: Seq<T>,
    before: SerializerView,
    after: SerializerView,
    r: Result<(), SerializeError>,
) -> bool {
    ||| r is Ok && exists|states: Seq<SerializerView>|
        #![trigger resolved_in_order(items, states)]
        resolved_in_order(items, states) && states[0] == before && states.last() == after
    ||| r is Err && exists|states: Seq<SerializerView>|
        #![trigger resolved_in_order(items.take(states.len() - 1), states)]
        1 <= states.len() <= items.len() && resolved_in_order(items.take(states.len() - 1), states)
            && states[0] == before && items[states.len() - 1].resolve_spec(states.last(), after, r)
}

/// Writing `items` one after the other, as a relation between states and result.
pub open spec fn items_writer<T: Bin1Serialize>(items: Seq<T>) -> spec_fn(
    SerializerView,
    SerializerView,
    Result<(), SerializeError>,
) -> bool {
    |b: SerializerView, a: SerializerView, x: Result<(), SerializeError>| items_write_spec(items, b, a, x)
}

/// Resolving `items` one after the other, as a relation between states and result.
pub open spec fn items_resolver<T: Bin1Serialize>(items: Seq<T>) -> spec_fn(
    SerializerView,
    SerializerView,
    Result<(), SerializeError>,
) -> bool {
    |b: SerializerView, a: SerializerView, x: Result<(), SerializeError>| items_resolve_spec(items, b, a, x)
}

/// What resolving `items`, written as a TArray with pointer IDs made from `address`,
/// does: nothing when there are none or they are inline; otherwise they are written
/// as the pointee of the start pointer, with the end pointer registered after them.
pub open spec fn tarray_resolve_spec<T: Bin1Serialize + Aligned>(
    items: Seq<T>,
    size: nat,
    address: u64,
    before: SerializerView,
    after: SerializerView,
    r: Result<(), SerializeError>,
) -> bool {
    if items.len() == 0 || is_inline(items.len(), size) {
        no_pointees(before, after, r)
    } else {
        pointee_spec(
            items_writer(items),
            items_resolver(items),
            T::ALIGNMENT as nat,
            address | START_ID_TAG,
            Some((address | START_ID_TAG) | END_ID_TAG),
            before,
            after,
            r,
        )
    }
}

/// What writing `items` as a TArray with pointer IDs made from `address` does:
/// three null pointers when there are none; the three pointers when they are not
/// inline; otherwise the elements, then, if they took at most 16 bytes, zeros up to
/// 16 bytes and the flags word.
pub open spec fn tarray_write_spec<T: Bin1Serialize>(
    items: Seq<T>,
    size: nat,
    address: u64,
    before: SerializerView,
    after: SerializerView,
    r: Result<(), SerializeError>,
) -> bool {
    if items.len() == 0 {
        after == before.after_pointer(NULL_POINTER_ID).after_pointer(NULL_POINTER_ID).after_pointer(
            NULL_POINTER_ID,
        ) && r is Ok
    } else if !is_inline(items.len(), size) {
        let start_id = address | START_ID_TAG;
        after == before.after_pointer(start_id).after_pointer(start_id | END_ID_TAG).after_pointer(
            start_id | END_ID_TAG,
        ) && r is Ok
    } else {
        exists|mid: SerializerView, r1: Result<(), SerializeError>|
            #![trigger items_write_spec(items, before, mid, r1)]
            items_write_spec(items, before, mid, r1) && before.extended_by(mid) && mid.wf() && if r1 is Err {
                after == mid && r == r1
            } else if mid.buffer.len() - before.buffer.len() > 16 {
                after == mid && r == Err::<(), SerializeError>(SerializeError::InlineArrayTooLarge)
            } else {
                after == mid.append(zeros(inline_padding(before.buffer.len(), mid.buffer.len()))).append(
                    le_bytes(inline_flags(items.len()) as nat, 8),
                ) && r is Ok
            }
    }
}

/// Whether a dynamic array of `len` elements of `size` bytes is stored inline.
pub open spec fn is_inline(len: nat, size: nat) -> bool {
    len * size <= 16
}

/// The flags word that follows an inline array of `len` elements.
pub open spec fn inline_flags(len: nat) -> u64 {
    (INLINE_FLAG + (len % 256) + (len % 256) * 256) as u64
}

/// The zero bytes that pad the elements of an inline array, written from `start`
/// to `end`, to 16 bytes.
pub open spec fn inline_padding(start: nat, end: nat) -> nat {
    if end - start <= 16 {
        (16 - (end - start)) as nat
    } else {
        0
    }
}

/// Whether an array of `len` elements of `size` bytes is stored inline.
fn inline_len(len: usize, size: usize) -> (r: bool)
    ensures
        r == is_inline(len as nat, size as nat),
{
    match len.checked_mul(size) {
        Some(p) => p <= 16,
        None => false,
    }
}

/// Writes `items`, each of `size` bytes when read back, as a TArray, with pointer
/// IDs made from `address`.
pub(crate) fn write_tarray<E: Bin1Serialize + Aligned>(
    items: &[E],
    size: usize,
    address: u64,
    ser: &mut Bin1Serializer,
) -> (r: Result<(), SerializeError>)
    requires
        old(ser)@.wf(),
    ensures
        final(ser)@.wf(),
        old(ser)@.extended_by(final(ser)@),
        tarray_write_spec(items@, size as nat, address, old(ser)@, final(ser)@, r),
{
    let ghost start = ser@;
    if items.len() == 0 {
        ser.write_pointer(NULL_POINTER_ID);
        let ghost s1 = ser@;
        ser.write_pointer(NULL_POINTER_ID);
        let ghost s2 = ser@;
        ser.write_pointer(NULL_POINTER_ID);
        proof {
            lemma_extended_by_transitive(start, s1, s2);
            lemma_extended_by_transitive(start, s2, ser@);
        }
    } else if inline_len(items.len(), size) {
        let pos = ser.position();
        let r1 = items.write(ser);
        let ghost mid = ser@;
        proof {
            assert(items_write_spec(items@, start, mid, r1));
        }
        if r1.is_err() {
            return r1;
        }
        let written = ser.position() - pos;
        if written > 16 {
            return Err(SerializeError::InlineArrayTooLarge);
        }
        let padding = 16 - written;
        let ghost s1 = ser@;
        let zeros: Vec<u8> = vec![0; padding];
        proof {
            assert(zeros@ =~= crate::ser::zeros(padding as nat));
            assert(padding == inline_padding(start.buffer.len(), mid.buffer.len()));
        }
        ser.write_unaligned(zeros.as_slice());
        let len = items.len();
        #[verifier::truncate]
        let n = len as u8 as u64;
        let flags = INLINE_FLAG | n | (n << 8);
        proof {
            assert(n == (len as u8) as u64);
            assert((len as u8) as u64 == len % 256) by (bit_vector);
            assert(n < 256 ==> 0x4000_0000_0000_0000 | n | (n << 8) == 0x4000_0000_0000_0000 + n
                + n * 256) by (bit_vector);
            lemma_extended_by_transitive(start, s1, ser@);
        }
        let ghost s2 = ser@;
        flags.write(ser)?;
        proof {
            lemma_extended_by_transitive(start, s2, ser@);
            assert(flags == inline_flags(items@.len()));
            assert(start.extended_by(mid));
        }
    } else {
        let start_id = address | START_ID_TAG;
        let end_id = start_id | END_ID_TAG;
        ser.write_pointer(start_id);
        let ghost s1 = ser@;
        ser.write_pointer(end_id);
        let ghost s2 = ser@;
        ser.write_pointer(end_id);
        proof {
            lemma_extended_by_transitive(start, s1, s2);
            lemma_extended_by_transitive(start, s2, ser@);
        }
    }
    Ok(())
}
/// Writes the elements of a TArray that is not stored inline where its pointers
/// point.
pub(crate) fn resolve_tarray<E: Bin1Serialize + Aligned>(
    items: &[E],
    size: usize,
    address: u64,
    ser: &mut Bin1Serializer,
) -> (r: Result<(), SerializeError>)
    requires
        old(ser)@.wf(),
    ensures
        final(ser)@.wf(),
        old(ser)@.extended_by(final(ser)@),
        items@.len() == 0 || is_inline(items@.len(), size as nat) ==> final(ser)@ == old(ser)@
            && r is Ok,
        items@.len() > 0 && !is_inline(items@.len(), size as nat) && old(ser)@.offsets.contains_key(
            address | START_ID_TAG,
        ) ==> final(ser)@ == old(ser)@ && r is Ok,
        r is Ok && items@.len() > 0 && !is_inline(items@.len(), size as nat)
            ==> final(ser)@.offsets.contains_key(address | START_ID_TAG),
        r is Ok && items@.len() > 0 && !is_inline(items@.len(), size as nat)
            && !old(ser)@.offsets.contains_key(address | START_ID_TAG)
            ==> final(ser)@.offsets.contains_key((address | START_ID_TAG) | END_ID_TAG),
        tarray_resolve_spec(items@, size as nat, address, old(ser)@, final(ser)@, r),
{
    if items.len() > 0 && !inline_len(items.len(), size) {
        let start_id = address | START_ID_TAG;
        let end_id = start_id | END_ID_TAG;
        let r = ser.write_pointee(start_id, Some(end_id), items);
        proof {
            assert((|b: SerializerView, a: SerializerView, x: Result<(), SerializeError>|
                items.write_spec(b, a, x)) =~= items_writer(items@));
            assert((|b: SerializerView, a: SerializerView, x: Result<(), SerializeError>|
                items.resolve_spec(b, a, x)) =~= items_resolver(items@));
            assert(items.alignment_spec() == E::ALIGNMENT);
        }
        r
    } else {
        proof {
            lemma_extended_by_refl(ser@);
        }
        Ok(())
    }
}

impl<T: Aligned> Aligned for [T] {
    const ALIGNMENT: usize = T::ALIGNMENT;

    proof fn alignment_is_positive() {
        T::alignment_is_positive();
    }
}

impl<T: Aligned, const N: usize> Aligned for [T; N] {
    const ALIGNMENT: usize = T::ALIGNMENT;

    proof fn alignment_is_positive()
        ensures
            Self::ALIGNMENT == T::ALIGNMENT,
    {
        T::alignment_is_positive();
    }
}

/// A slice is written as its elements, each at its alignment, with no length.
impl<T: Bin1Serialize + Aligned> Bin1Serialize for [T] {
    open spec fn alignment_spec(&self) -> usize {
        T::ALIGNMENT
    }

    fn alignment(&self) -> (r: usize)
        ensures
            r == T::ALIGNMENT,
    {
        proof {
            assert(self.alignment_spec() == T::ALIGNMENT);
            T::alignment_is_positive();
        }
        T::ALIGNMENT
    }

    open spec fn write_spec(&self, before: SerializerView, after: SerializerView, r: Result<(), SerializeError>) -> bool {
        items_write_spec(self@, before, after, r)
    }

    /// Writes the elements in order, each after padding to its alignment, stopping
    /// at the first that fails.
    fn write(&self, ser: &mut Bin1Serializer) -> (r: Result<(), SerializeError>)
        ensures
            items_write_spec(self@, old(ser)@, final(ser)@, r),
    {
        let ghost start = ser@;
        let ghost mut states: Seq<SerializerView> = seq![start];
        proof {
            lemma_extended_by_refl(start);
            assert(written_in_order(self@.take(0), states));
        }
        let mut i: usize = 0;
        while i < self.len()
            invariant
                i <= self@.len(),
                ser@.wf(),
                start.extended_by(ser@),
                start == old(ser)@,
                states.len() == i + 1,
                states[0] == start,
                states.last() == ser@,
                written_in_order(self@.take(i as int), states),
            decreases self@.len() - i,
        {
            let ghost before = ser@;
            let r = self[i].write_aligned(ser);
            proof {
                lemma_extended_by_transitive(start, before, ser@);
            }
            match r {
                Ok(u) => {
                    assert(r is Ok);
                    assert(u == ());
                    assert(r == Ok::<(), SerializeError>(u));
                },
                Err(e) => {
                    proof {
                        assert(self@[states.len() - 1] == self@[i as int]);
                        assert(items_write_spec(self@, start, ser@, r));
                    }
                    return Err(e);
                },
            }
            proof {
                let next = states.push(ser@);
                let items = self@.take(i + 1);
                assert forall|k: int| 0 <= k < items.len() implies #[trigger] items[k].write_spec(
                    next[k].aligned(items[k].alignment_spec() as nat),
                    next[k + 1],
                    Ok(()),
                ) by {
                    if k < i {
                        assert(items[k] == self@.take(i as int)[k]);
                        assert(next[k] == states[k]);
                        assert(next[k + 1] == states[k + 1]);
                    } else {
                        assert(items[k] == self@[i as int]);
                        assert(next[k] == before);
                        assert(next[k + 1] == ser@);
                        assert(r == Ok::<(), SerializeError>(()));
                    }
                }
                states = next;
            }
            i = i + 1;
        }
        proof {
            assert(self@.take(self@.len() as int) =~= self@);
            assert(items_write_spec(self@, start, ser@, Ok(())));
        }
        Ok(())
    }

    open spec fn resolve_spec(&self, before: SerializerView, after: SerializerView, r: Result<(), SerializeError>) -> bool {
        items_resolve_spec(self@, before, after, r)
    }

    /// Resolves the elements in order, stopping at the first that fails.
    fn resolve(&self, ser: &mut Bin1Serializer) -> (r: Result<(), SerializeError>)
        ensures
            self@.len() == 0 ==> final(ser)@ == old(ser)@ && r is Ok,
    {
        let ghost start = ser@;
        let ghost mut states: Seq<SerializerView> = seq![start];
        proof {
            lemma_extended_by_refl(start);
            assert(resolved_in_order(self@.take(0), states));
        }
        let mut i: usize = 0;
        while i < self.len()
            invariant
                i <= self@.len(),
                ser@.wf(),
                start.extended_by(ser@),
                start == old(ser)@,
                i == 0 ==> ser@ == start,
                states.len() == i + 1,
                states[0] == start,
                states.last() == ser@,
                resolved_in_order(self@.take(i as int), states),
            decreases self@.len() - i,
        {
            let ghost before = ser@;
            let r = self[i].resolve(ser);
            proof {
                lemma_extended_by_transitive(start, before, ser@);
            }
            match r {
                Ok(u) => {
                    assert(r == Ok::<(), SerializeError>(u));
                },
                Err(e) => {
                    proof {
                        assert(self@[states.len() - 1] == self@[i as int]);
                        assert(items_resolve_spec(self@, start, ser@, r));
                    }
                    return Err(e);
                },
            }
            proof {
                let next = states.push(ser@);
                let items = self@.take(i + 1);
                assert forall|k: int| 0 <= k < items.len() implies #[trigger] items[k].resolve_spec(
                    next[k],
                    next[k + 1],
                    Ok(()),
                ) by {
                    if k < i {
                        assert(items[k] == self@.take(i as int)[k]);
                        assert(next[k] == states[k]);
                        assert(next[k + 1] == states[k + 1]);
                    } else {
                        assert(items[k] == self@[i as int]);
                        assert(next[k] == before);
                        assert(next[k + 1] == ser@);
                        assert(r == Ok::<(), SerializeError>(()));
                    }
                }
                states = next;
            }
            i = i + 1;
        }
        proof {
            assert(self@.take(self@.len() as int) =~= self@);
            assert(items_resolve_spec(self@, start, ser@, Ok(())));
        }
        Ok(())
    }
}

/// A fixed array is written as its elements, each at its alignment.
impl<T: Bin1Serialize + Aligned, const N: usize> Bin1Serialize for [T; N] {
    open spec fn alignment_spec(&self) -> usize {
        T::ALIGNMENT
    }

    fn alignment(&self) -> (r: usize)
        ensures
            r == T::ALIGNMENT,
    {
        proof {
            assert(self.alignment_spec() == T::ALIGNMENT);
        }
        self.as_slice().alignment()
    }

    open spec fn write_spec(&self, before: SerializerView, after: SerializerView, r: Result<(), SerializeError>) -> bool {
        items_write_spec(self@, before, after, r)
    }

    fn write(&self, ser: &mut Bin1Serializer) -> (r: Result<(), SerializeError>)
        ensures
            items_write_spec(self@, old(ser)@, final(ser)@, r),
    {
        self.as_slice().write(ser)
    }

    open spec fn resolve_spec(&self, before: SerializerView, after: SerializerView, r: Result<(), SerializeError>) -> bool {
        items_resolve_spec(self@, before, after, r)
    }

    fn resolve(&self, ser: &mut Bin1Serializer) -> (r: Result<(), SerializeError>)
        ensures
            N == 0 ==> final(ser)@ == old(ser)@ && r is Ok,
    {
        self.as_slice().resolve(ser)
    }
}

/// The values `values` were read one after the other as the elements of a fixed
/// array, from the states `states`: for each, the cursor was aligned to the element
/// type's alignment, the value was read, giving the state `raws[k]`, and the cursor
/// was aligned again, giving the next state.
pub open spec fn fixed_read_in_order<T: Bin1Deserialize>(
    values: Seq<T>,
    states: Seq<DeserializerView>,
    raws: Seq<DeserializerView>,
) -> bool {
    &&& states.len() == values.len() + 1
    &&& raws.len() == values.len()
    &&& forall|k: int|
        #![trigger values[k]]
        0 <= k < values.len() ==> states[k].align_ok(T::ALIGNMENT) && T::read_spec(
            states[k].after_align(T::ALIGNMENT),
            raws[k],
            Ok(values[k]),
        ) && raws[k].align_ok(T::ALIGNMENT) && states[k + 1] == raws[k].after_align(T::ALIGNMENT)
}

/// Where at least one element was read as a fixed array's, the cursor could be
/// aligned where reading began.
proof fn lemma_fixed_read_first<T: Bin1Deserialize>(
    values: Seq<T>,
    states: Seq<DeserializerView>,
    raws: Seq<DeserializerView>,
)
    requires
        fixed_read_in_order(values, states, raws),
        values.len() > 0,
    ensures
        states[0].align_ok(T::ALIGNMENT),
{
    let first = values[0];
    assert(T::read_spec(states[0].after_align(T::ALIGNMENT), raws[0], Ok(first)));
}

/// Reading the next element of a fixed array from the state `s` fails: the cursor
/// cannot be aligned, or the read fails, or the cursor cannot be aligned after it.
pub open spec fn fixed_read_fails<T: Bin1Deserialize>(s: DeserializerView) -> bool {
    ||| !s.align_ok(T::ALIGNMENT)
    ||| exists|s2: DeserializerView, e: DeserializeError|
        #![trigger T::read_spec(s.after_align(T::ALIGNMENT), s2, Err(e))]
        T::read_spec(s.after_align(T::ALIGNMENT), s2, Err(e))
    ||| exists|s2: DeserializerView, v: T|
        #![trigger T::read_spec(s.after_align(T::ALIGNMENT), s2, Ok(v))]
        T::read_spec(s.after_align(T::ALIGNMENT), s2, Ok(v)) && !s2.align_ok(T::ALIGNMENT)
}

/// A fixed array is read element by element, each aligned before and after.
impl<T: Bin1Deserialize, const N: usize> Bin1Deserialize for [T; N] {
    const SIZE: usize = T::SIZE * N;

    open spec fn read_spec(before: DeserializerView, after: DeserializerView, r: Result<Self, DeserializeError>) -> bool {
        &&& (N == 0 ==> r is Ok && after == before)
        &&& (N > 0 && !before.align_ok(T::ALIGNMENT) ==> (r matches Err(
                DeserializeError::Io(IoError::InvalidSeek),
            )) && after == before)
        &&& (N > 0 && r is Ok ==> exists|states: Seq<DeserializerView>, raws: Seq<DeserializerView>|
                #![trigger fixed_read_in_order(r->Ok_0@, states, raws)]
                fixed_read_in_order(r->Ok_0@, states, raws) && states[0] == before && after
                    == states.last())
        &&& (N > 0 && r is Err ==> exists|
                values: Seq<T>,
                states: Seq<DeserializerView>,
                raws: Seq<DeserializerView>,
            |
                #![trigger fixed_read_in_order(values, states, raws)]
                values.len() < N && fixed_read_in_order(values, states, raws) && states[0] == before
                    && fixed_read_fails::<T>(states.last()))
    }

    fn read(de: &mut Bin1Deserializer) -> (r: Result<Self, DeserializeError>)
        ensures
            Self::read_spec(old(de)@, final(de)@, r),
    {
        proof {
            T::alignment_is_positive();
        }
        let ghost start = de@;
        let ghost mut states: Seq<DeserializerView> = seq![de@];
        let ghost mut raws: Seq<DeserializerView> = Seq::empty();
        let mut items: Vec<T> = Vec::new();
        let mut i: usize = 0;
        while i < N
            invariant
                i <= N,
                items@.len() == i,
                start == old(de)@,
                de@.data == start.data,
                de@.type_names == start.type_names,
                T::ALIGNMENT > 0,
                fixed_read_in_order(items@, states, raws),
                states[0] == start,
                states.last() == de@,
            decreases N - i,
        {
            let ghost s0 = de@;
            proof {
                if i > 0 {
                    lemma_fixed_read_first(items@, states, raws);
                }
            }
            match de.align_to(T::ALIGNMENT) {
                Ok(()) => {},
                Err(e) => {
                    proof {
                        assert(!s0.align_ok(T::ALIGNMENT));
                        assert(fixed_read_fails::<T>(states.last()));
                    }
                    return Err(e);
                },
            }
            let ghost s_a = de@;
            let r1 = T::read(de);
            let ghost s1 = de@;
            let item = match r1 {
                Ok(item) => item,
                Err(e) => {
                    proof {
                        assert(T::read_spec(s0.after_align(T::ALIGNMENT), s1, Err(e)));
                        assert(fixed_read_fails::<T>(states.last()));
                    }
                    return Err(e);
                },
            };
            match de.align_to(T::ALIGNMENT) {
                Ok(()) => {},
                Err(e) => {
                    proof {
                        assert(T::read_spec(s0.after_align(T::ALIGNMENT), s1, Ok(item)));
                        assert(!s1.align_ok(T::ALIGNMENT));
                        assert(fixed_read_fails::<T>(states.last()));
                    }
                    return Err(e);
                },
            }
            proof {
                let next = states.push(de@);
                let next_raws = raws.push(s1);
                let values = items@.push(item);
                assert forall|k: int| #![trigger values[k]] 0 <= k < values.len() implies next[k].align_ok(
                    T::ALIGNMENT,
                ) && T::read_spec(next[k].after_align(T::ALIGNMENT), next_raws[k], Ok(values[k]))
                    && next_raws[k].align_ok(T::ALIGNMENT) && next[k + 1] == next_raws[k].after_align(
                    T::ALIGNMENT,
                ) by {
                    if k < i {
                        assert(next[k] == states[k]);
                        assert(next[k + 1] == states[k + 1]);
                        assert(next_raws[k] == raws[k]);
                        assert(values[k] == items@[k]);
                    }
                }
                states = next;
                raws = next_raws;
            }
            items.push(item);
            i = i + 1;
        }
        match vec_into_array::<T, N>(items) {
            Ok(a) => {
                proof {
                    assert(a@ == items@);
                    assert(fixed_read_in_order(a@, states, raws));
                    if N > 0 {
                        lemma_fixed_read_first(a@, states, raws);
                    }
                    let r = Ok::<[T; N], DeserializeError>(a);
                    assert(fixed_read_in_order(r->Ok_0@, states, raws));
                }
                Ok(a)
            },
            Err(_) => {
                proof {
                    assert(false);
                }
                Err(DeserializeError::UnterminatedArray)
            },
        }
    }
}

impl<T> Aligned for Vec<T> {
    const ALIGNMENT: usize = 8;

    proof fn alignment_is_positive() {
    }
}

/// A vector is written as a TArray: three null pointers when it is empty; its
/// elements padded to 16 bytes and a flags word holding the inline flag and the
/// length twice, when its elements fit in 16 bytes; otherwise pointers to its first
/// element, its end and its allocation end, which is its end.
impl<T: Bin1Serialize + Aligned + Bin1Deserialize> Bin1Serialize for Vec<T> {
    open spec fn alignment_spec(&self) -> usize {
        8
    }

    fn alignment(&self) -> (r: usize)
        ensures
            r == 8,
    {
        proof {
            assert(self.alignment_spec() == 8);
        }
        8
    }

    open spec fn write_spec(&self, before: SerializerView, after: SerializerView, r: Result<(), SerializeError>) -> bool {
        exists|address: u64|
            #![trigger tarray_write_spec(self@, T::SIZE as nat, address, before, after, r)]
            tarray_write_spec(self@, T::SIZE as nat, address, before, after, r)
    }

    fn write(&self, ser: &mut Bin1Serializer) -> (r: Result<(), SerializeError>)
        ensures
            exists|address: u64|
                #![trigger tarray_write_spec(self@, T::SIZE as nat, address, old(ser)@, final(ser)@, r)]
                tarray_write_spec(self@, T::SIZE as nat, address, old(ser)@, final(ser)@, r),
    {
        let addr = address_of(self.as_slice());
        let r = write_tarray(self.as_slice(), T::SIZE, addr, ser);
        proof {
            assert(tarray_write_spec(self@, T::SIZE as nat, addr, old(ser)@, ser@, r));
        }
        r
    }

    open spec fn resolve_spec(&self, before: SerializerView, after: SerializerView, r: Result<(), SerializeError>) -> bool {
        exists|address: u64|
            #![trigger tarray_resolve_spec(self@, T::SIZE as nat, address, before, after, r)]
            tarray_resolve_spec(self@, T::SIZE as nat, address, before, after, r)
    }

    /// Writes the elements where the pointers point, unless they are stored inline.
    fn resolve(&self, ser: &mut Bin1Serializer) -> (r: Result<(), SerializeError>)
        ensures
            self@.len() == 0 || is_inline(self@.len(), T::SIZE as nat) ==> final(ser)@ == old(
                ser,
            )@ && r is Ok,
            self@.len() > 0 && !is_inline(self@.len(), T::SIZE as nat) ==> exists|start_id: u64|
                #![trigger old(ser)@.offsets.contains_key(start_id)]
                start_id & START_ID_TAG == START_ID_TAG && (old(ser)@.offsets.contains_key(
                    start_id,
                ) ==> final(ser)@ == old(ser)@ && r is Ok) && (r is Ok
                    ==> final(ser)@.offsets.contains_key(start_id)),
    {
        let addr = address_of(self.as_slice());
        let r = resolve_tarray(self.as_slice(), T::SIZE, addr, ser);
        proof {
            let start_id = addr | START_ID_TAG;
            assert(start_id & 0xABCD_0000_0000_0000 == 0xABCD_0000_0000_0000) by (bit_vector)
                requires
                    start_id == addr | 0xABCD_0000_0000_0000,
            ;
        }
        r
    }
}

/// The two words at the cursor once it is aligned to 8: the state after them and
/// their values.
pub open spec fn two_words(v: DeserializerView) -> Option<(DeserializerView, u64, u64)> {
    if !v.align_ok(8) {
        None
    } else {
        let a = v.after_align(8);
        if a.can_read(16) {
            Some(
                (
                    a.after_read(16),
                    le_value(a.bytes_at_cursor(8)) as u64,
                    le_value(a.after_read(8).bytes_at_cursor(8)) as u64,
                ),
            )
        } else {
            None
        }
    }
}

/// Aligns the cursor to 8 and reads two words.
pub(crate) fn read_two_words(de: &mut Bin1Deserializer) -> (r: Result<(u64, u64), DeserializeError>)
    ensures
        final(de)@.data == old(de)@.data,
        final(de)@.type_names == old(de)@.type_names,
        !old(de)@.align_ok(8) ==> (r matches Err(DeserializeError::Io(IoError::InvalidSeek))),
        old(de)@.align_ok(8) && !old(de)@.after_align(8).can_read(16) ==> (r matches Err(
            DeserializeError::Io(IoError::UnexpectedEof),
        )),
        two_words(old(de)@) matches Some((after, a, b)) ==> (r matches Ok(w) && w == (a, b)
            && final(de)@ == after),
{
    proof {
        lemma_data_len_fits(de);
    }
    match de.align_to(8) {
        Ok(()) => {},
        Err(e) => {
            return Err(e);
        },
    }
    let ghost a = de@;
    proof {
        lemma_read_twice(a, 8, 8);
    }
    let first = match de.read_u64() {
        Ok(v) => v,
        Err(e) => {
            return Err(e);
        },
    };
    let second = match de.read_u64() {
        Ok(v) => v,
        Err(e) => {
            return Err(e);
        },
    };
    Ok((first, second))
}

/// The values `values` are read one after the other through the states `states`,
/// the cursor aligned to the values' alignment before each.
pub open spec fn read_in_order<T: Bin1Deserialize>(values: Seq<T>, states: Seq<DeserializerView>) -> bool {
    &&& states.len() == values.len() + 1
    &&& forall|k: int|
        #![trigger values[k]]
        0 <= k < values.len() ==> states[k].align_ok(T::ALIGNMENT) && T::read_spec(
            states[k].after_align(T::ALIGNMENT),
            states[k + 1],
            Ok(values[k]),
        )
}

/// The values `values` were read one after the other through the states `states`,
/// and the next value could not be read: the cursor could not be aligned, or the
/// read failed.
pub open spec fn read_stopped<T: Bin1Deserialize>(values: Seq<T>, states: Seq<DeserializerView>) -> bool {
    &&& read_in_order(values, states)
    &&& (!states.last().align_ok(T::ALIGNMENT) || exists|s: DeserializerView, e: DeserializeError|
        #![trigger T::read_spec(states.last().after_align(T::ALIGNMENT), s, Err(e))]
        T::read_spec(states.last().after_align(T::ALIGNMENT), s, Err(e)))
}

/// The word at the cursor once it is aligned to 8, `skip` words further on.
pub open spec fn aligned_word(v: DeserializerView, skip: nat) -> u64 {
    let a = v.after_align(8);
    le_value(a.data.subrange(a.pos + 8 * skip, a.pos + 8 * skip + 8)) as u64
}

/// Where the elements of a TArray at the cursor start: at the array itself when
/// they are inline, otherwise where its first word points in the data section.
pub open spec fn tarray_elements(v: DeserializerView, flags: u64) -> DeserializerView {
    let a = v.after_align(8);
    if (flags / INLINE_FLAG) % 2 == 1 {
        a
    } else {
        a.at(aligned_word(v, 0).wrapping_add(16))
    }
}

/// What the flags word of a dynamic array at the cursor says: the state after
/// reading it (aligned to 8, past the first two words) and its value.
pub open spec fn array_flags(v: DeserializerView) -> Option<(DeserializerView, u64)> {
    if !v.align_ok(8) {
        None
    } else {
        let a = v.after_align(8);
        match a.seek_by(16) {
            Err(_) => None,
            Ok(b) => if b.can_read(8) {
                Some((b.after_read(8), le_value(b.bytes_at_cursor(8)) as u64))
            } else {
                None
            },
        }
    }
}

/// A vector is read from a TArray: empty when the allocation end word is the null
/// pointer; from the inline elements when the flags word has the inline flag, with
/// as many elements as its low byte says; otherwise from the elements between the
/// first element and end pointers. The cursor is left after the three words.
impl<T: Bin1Deserialize> Bin1Deserialize for Vec<T> {
    const SIZE: usize = 24;

    open spec fn read_spec(before: DeserializerView, after: DeserializerView, r: Result<Self, DeserializeError>) -> bool {
        match array_flags(before) {
            None => r is Err,
            Some((next, flags)) => {
                &&& flags == NULL_POINTER_ID ==> (r matches Ok(v) && v@.len() == 0 && after == next)
                &&& flags != NULL_POINTER_ID && r is Ok ==> after == next
                &&& flags != NULL_POINTER_ID && (flags / INLINE_FLAG) % 2 == 1 ==> (r matches Ok(v)
                    ==> v@.len() == flags % 256)
                &&& flags != NULL_POINTER_ID && (flags / INLINE_FLAG) % 2 == 1 ==> (r is Err
                    ==> exists|values: Seq<T>, states: Seq<DeserializerView>|
                    #![trigger read_stopped(values, states)]
                    values.len() < flags % 256 && read_stopped(values, states) && states[0]
                        == tarray_elements(before, flags))
                &&& flags != NULL_POINTER_ID && (flags / INLINE_FLAG) % 2 != 1 ==> (r is Err
                    ==> exists|values: Seq<T>, states: Seq<DeserializerView>|
                    #![trigger read_in_order(values, states)]
                    read_in_order(values, states) && states[0] == tarray_elements(before, flags)
                        && (forall|k: int|
                        0 <= k < states.len() ==> (#[trigger] states[k]).pos != aligned_word(
                            before,
                            1,
                        ).wrapping_add(16)) && (values.len() >= before.data.len()
                        || read_stopped(values, states)))
                &&& flags != NULL_POINTER_ID && (flags / INLINE_FLAG) % 2 != 1 ==> (r matches Ok(v)
                    ==> exists|states: Seq<DeserializerView>|
                    #![trigger read_in_order(v@, states)]
                    read_in_order(v@, states) && states[0] == tarray_elements(before, flags)
                        && states.last().pos == aligned_word(before, 1).wrapping_add(16) && forall|k: int|
                        0 <= k < v@.len() ==> (#[trigger] states[k]).pos != aligned_word(
                        before,
                        1,
                    ).wrapping_add(16))
                &&& flags != NULL_POINTER_ID ==> (r matches Ok(v) ==> exists|states: Seq<DeserializerView>|
                    #![trigger read_in_order(v@, states)]
                    read_in_order(v@, states) && states[0] == tarray_elements(before, flags) && ((flags
                        / INLINE_FLAG) % 2 != 1 ==> states.last().pos == aligned_word(
                        before,
                        1,
                    ).wrapping_add(16)))
            },
        }
    }

    #[verifier::rlimit(60)]
    #[verifier::spinoff_prover]
    fn read(de: &mut Bin1Deserializer) -> (r: Result<Self, DeserializeError>)
        ensures
            Self::read_spec(old(de)@, final(de)@, r),
    {
        proof {
            T::alignment_is_positive();
            lemma_data_len_fits(de);
        }
        let ghost start = de@;
        de.align_to(8)?;
        let ghost aligned = de@;
        de.seek_relative(16)?;
        let allocation_end_or_flags = de.read_u64()?;
        if allocation_end_or_flags == NULL_POINTER_ID {
            return Ok(Vec::new());
        }
        let ghost after = de@;
        let end_pos = de.position();
        assert(array_flags(old(de)@) == Some((after, allocation_end_or_flags)));
        de.seek_relative(-24)?;
        proof {
            assert(aligned == start.after_align(8));
            assert(de@ == aligned);
        }
        let mut result: Vec<T> = Vec::new();
        proof {
            let f = allocation_end_or_flags;
            assert((f >> 62) & 1 == (f / 0x4000_0000_0000_0000) % 2) by (bit_vector);
        }
        if (allocation_end_or_flags >> 62) & 1 == 1 {
            let low = allocation_end_or_flags & 0xFF;
            assert(low < 256) by (bit_vector)
                requires
                    low == allocation_end_or_flags & 0xFF,
            ;
            let len = low as usize;
            proof {
                let f = allocation_end_or_flags;
                assert(f & 0xFF == f % 256) by (bit_vector);
            }
            let ghost mut states: Seq<DeserializerView> = seq![de@];
            let mut i: usize = 0;
            while i < len
                invariant
                    i <= len,
                    result@.len() == i,
                    array_flags(old(de)@) == Some((after, allocation_end_or_flags)),
                    allocation_end_or_flags != NULL_POINTER_ID,
                    after.pos == end_pos,
                    after.data == start.data,
                    after.type_names == start.type_names,
                    de@.data == start.data,
                    start == old(de)@,
                    de@.type_names == start.type_names,
                    T::ALIGNMENT > 0,
                    read_in_order(result@, states),
                    states[0] == tarray_elements(start, allocation_end_or_flags),
                    states.last() == de@,
                    (allocation_end_or_flags / INLINE_FLAG) % 2 == 1,
                    len == allocation_end_or_flags % 256,
                decreases len - i,
            {
                let ghost s0 = de@;
                match de.align_to(T::ALIGNMENT) {
                    Ok(()) => {},
                    Err(e) => {
                        proof {
                            assert(!s0.align_ok(T::ALIGNMENT));
                            assert(read_stopped(result@, states));
                        }
                        return Err(e);
                    },
                }
                assert(s0.align_ok(T::ALIGNMENT));
                let ghost s_a = de@;
                let r1 = T::read(de);
                let ghost s1 = de@;
                assert(T::read_spec(s_a, s1, r1));
                let item = match r1 {
                    Ok(item) => {
                        assert(r1 is Ok);
                        assert(r1 == Ok::<T, DeserializeError>(item));
                        item
                    },
                    Err(e) => {
                        proof {
                            assert(r1 == Err::<T, DeserializeError>(e));
                            assert(T::read_spec(states.last().after_align(T::ALIGNMENT), s1, Err(e)));
                            assert(read_stopped(result@, states));
                        }
                        return Err(e);
                    },
                };
                assert(T::read_spec(s0.after_align(T::ALIGNMENT), s1, Ok(item)));
                proof {
                    assert(read_in_order(result@, states));
                    let next = states.push(de@);
                    let values = result@.push(item);
                    assert forall|k: int| 0 <= k < values.len() implies next[k].align_ok(T::ALIGNMENT)
                        && T::read_spec(
                        next[k].after_align(T::ALIGNMENT),
                        next[k + 1],
                        Ok(values[k]),
                    ) by {
                        if k < i {
                            assert(next[k] == states[k]);
                            assert(next[k + 1] == states[k + 1]);
                            assert(values[k] == result@[k]);
                            assert(states[k].align_ok(T::ALIGNMENT) && T::read_spec(
                                states[k].after_align(T::ALIGNMENT),
                                states[k + 1],
                                Ok(result@[k]),
                            ));
                        } else {
                            assert(next[k] == s0);
                            assert(next[k + 1] == s1);
                            assert(values[k] == item);
                        }
                    }
                    states = next;
                }
                result.push(item);
                i = i + 1;
            }
            de.seek_from_start(end_pos)?;
            proof {
                assert(de@ == after);
                assert(read_in_order(result@, states));
                assert(states[0] == tarray_elements(old(de)@, allocation_end_or_flags));
                assert((allocation_end_or_flags / INLINE_FLAG) % 2 != 1 ==> states.last().pos == aligned_word(old(de)@, 1).wrapping_add(16));
                assert(exists|st: Seq<DeserializerView>|
                    #![trigger read_in_order(result@, st)]
                    read_in_order(result@, st) && st[0] == tarray_elements(
                        old(de)@,
                        allocation_end_or_flags,
                    ) && ((allocation_end_or_flags / INLINE_FLAG) % 2 != 1 ==> st.last().pos
                        == aligned_word(old(de)@, 1).wrapping_add(16)));
                assert(result@.len() == allocation_end_or_flags % 256);
                let ghost rr = Ok::<Vec<T>, DeserializeError>(result);
                assert(rr matches Ok(v) && v@ == result@);
                assert(Self::read_spec(old(de)@, de@, rr));
            }
            Ok(result)
        } else {
            let start_ptr = de.read_u64()?;
            let end_ptr = de.read_u64()?;
            proof {
                lemma_read_twice(aligned, 8, 8);
                assert(aligned.bytes_at_cursor(8) =~= aligned.data.subrange(aligned.pos + 0, aligned.pos + 8));
                assert(aligned.after_read(8).bytes_at_cursor(8) =~= aligned.data.subrange(
                    aligned.pos + 8,
                    aligned.pos + 16,
                ));
                assert(start_ptr == aligned_word(start, 0));
                assert(end_ptr == aligned_word(start, 1));
            }
            de.seek_from_start(start_ptr.wrapping_add(16))?;
            let target = end_ptr.wrapping_add(16);
            let bound = (de.data_len() as u64).saturating_add(1);
            let mut count: u64 = 0;
            let ghost mut states: Seq<DeserializerView> = seq![de@];
            proof {
                assert(de@ == tarray_elements(start, allocation_end_or_flags));
            }
            loop
                invariant
                    count <= bound,
                    array_flags(old(de)@) == Some((after, allocation_end_or_flags)),
                    allocation_end_or_flags != NULL_POINTER_ID,
                    after.pos == end_pos,
                    after.data == start.data,
                    after.type_names == start.type_names,
                    de@.data == start.data,
                    start == old(de)@,
                    de@.type_names == start.type_names,
                    T::ALIGNMENT > 0,
                    read_in_order(result@, states),
                    states[0] == tarray_elements(start, allocation_end_or_flags),
                    states.last() == de@,
                    target == aligned_word(start, 1).wrapping_add(16),
                    (allocation_end_or_flags / INLINE_FLAG) % 2 != 1,
                    forall|k: int| 0 <= k < states.len() - 1 ==> (#[trigger] states[k]).pos != target,
                    result@.len() == count,
                    bound as int >= start.data.len(),
                ensures
                    (allocation_end_or_flags / INLINE_FLAG) % 2 != 1,
                    allocation_end_or_flags != NULL_POINTER_ID,
                    array_flags(old(de)@) == Some((after, allocation_end_or_flags)),
                    after.pos == end_pos,
                    after.data == start.data,
                    after.type_names == start.type_names,
                    de@.data == start.data,
                    de@.type_names == start.type_names,
                    read_in_order(result@, states),
                    states[0] == tarray_elements(start, allocation_end_or_flags),
                    states.last().pos == aligned_word(start, 1).wrapping_add(16),
                    forall|k: int| 0 <= k < states.len() - 1 ==> (#[trigger] states[k]).pos
                        != aligned_word(start, 1).wrapping_add(16),
                decreases bound - count,
            {
                if de.position() == target {
                    break;
                }
                if count >= bound {
                    proof {
                        assert forall|k: int| 0 <= k < states.len() implies (#[trigger] states[k]).pos
                            != target by {
                            if k == states.len() - 1 {
                                assert(states[k] == de@);
                            }
                        }
                        assert(result@.len() >= start.data.len());
                    }
                    return Err(DeserializeError::UnterminatedArray);
                }
                let ghost s0 = de@;
                proof {
                    assert forall|k: int| 0 <= k < states.len() implies (#[trigger] states[k]).pos
                        != target by {
                        if k == states.len() - 1 {
                            assert(states[k] == de@);
                        }
                    }
                }
                match de.align_to(T::ALIGNMENT) {
                    Ok(()) => {},
                    Err(e) => {
                        proof {
                            assert(!s0.align_ok(T::ALIGNMENT));
                            assert(read_stopped(result@, states));
                        }
                        return Err(e);
                    },
                }
                assert(s0.align_ok(T::ALIGNMENT));
                let ghost s_a = de@;
                let r1 = T::read(de);
                let ghost s1 = de@;
                assert(T::read_spec(s_a, s1, r1));
                let item = match r1 {
                    Ok(item) => {
                        assert(r1 is Ok);
                        assert(r1 == Ok::<T, DeserializeError>(item));
                        item
                    },
                    Err(e) => {
                        proof {
                            assert(r1 == Err::<T, DeserializeError>(e));
                            assert(T::read_spec(states.last().after_align(T::ALIGNMENT), s1, Err(e)));
                            assert(read_stopped(result@, states));
                        }
                        return Err(e);
                    },
                };
                assert(T::read_spec(s0.after_align(T::ALIGNMENT), s1, Ok(item)));
                proof {
                    assert(read_in_order(result@, states));
                    let next = states.push(de@);
                    let values = result@.push(item);
                    let i = result@.len() as int;
                    assert forall|k: int| 0 <= k < values.len() implies next[k].align_ok(T::ALIGNMENT)
                        && T::read_spec(
                        next[k].after_align(T::ALIGNMENT),
                        next[k + 1],
                        Ok(values[k]),
                    ) by {
                        if k < i {
                            assert(next[k] == states[k]);
                            assert(next[k + 1] == states[k + 1]);
                            assert(values[k] == result@[k]);
                            assert(states[k].align_ok(T::ALIGNMENT) && T::read_spec(
                                states[k].after_align(T::ALIGNMENT),
                                states[k + 1],
                                Ok(result@[k]),
                            ));
                        } else {
                            assert(next[k] == s0);
                            assert(next[k + 1] == s1);
                            assert(values[k] == item);
                        }
                    }
                    assert forall|k: int| 0 <= k < next.len() - 1 implies (#[trigger] next[k]).pos
                        != target by {
                        if k < states.len() - 1 {
                            assert(next[k] == states[k]);
                        } else {
                            assert(next[k] == s0);
                        }
                    }
                    states = next;
                }
                result.push(item);
                count = count + 1;
            }
            de.seek_from_start(end_pos)?;
            proof {
                assert(de@ == after);
                assert(read_in_order(result@, states));
                assert(states[0] == tarray_elements(old(de)@, allocation_end_or_flags));
                assert((allocation_end_or_flags / INLINE_FLAG) % 2 != 1 ==> states.last().pos == aligned_word(old(de)@, 1).wrapping_add(16));
                assert(exists|st: Seq<DeserializerView>| #![trigger read_in_order(result@, st)] read_in_order(result@, st) && st[0] == tarray_elements(old(de)@, allocation_end_or_flags) && ((allocation_end_or_flags / INLINE_FLAG) % 2 != 1 ==> st.last().pos == aligned_word(old(de)@, 1).wrapping_add(16)));
                assert(array_flags(old(de)@) == Some((after, allocation_end_or_flags)));
                assert(allocation_end_or_flags != NULL_POINTER_ID);
                assert(de@ == after);
                assert((allocation_end_or_flags / INLINE_FLAG) % 2 == 1 ==> result@.len() == allocation_end_or_flags % 256);
                assert(match array_flags(old(de)@) {
                    None => false,
                    Some((next, flags)) => {
                        &&& flags != NULL_POINTER_ID
                        &&& de@ == next
                        &&& (flags / INLINE_FLAG) % 2 != 1
                    },
                });
                assert(match array_flags(old(de)@) {
                    None => false,
                    Some((next, flags)) => exists|st: Seq<DeserializerView>|
                        #![trigger read_in_order(result@, st)]
                        read_in_order(result@, st) && st[0] == tarray_elements(old(de)@, flags) && ((flags
                            / INLINE_FLAG) % 2 != 1 ==> st.last().pos == aligned_word(
                            old(de)@,
                            1,
                        ).wrapping_add(16)),
                });
                assert(exists|st: Seq<DeserializerView>|
                    #![trigger read_in_order(result@, st)]
                    read_in_order(result@, st) && st[0] == tarray_elements(
                        old(de)@,
                        allocation_end_or_flags,
                    ) && st.last().pos == aligned_word(old(de)@, 1).wrapping_add(16) && forall|k: int|
                        0 <= k < result@.len() ==> (#[trigger] st[k]).pos != aligned_word(
                        old(de)@,
                        1,
                    ).wrapping_add(16));
                let ghost rr = Ok::<Vec<T>, DeserializeError>(result);
                assert(rr matches Ok(v) && v@ == result@);
                assert(Self::read_spec(old(de)@, de@, Ok::<Vec<T>, DeserializeError>(result)));
            }
            Ok(result)
        }
    }
}

} // verus!
