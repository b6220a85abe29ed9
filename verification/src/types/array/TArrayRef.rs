//! Borrowed arrays written as a pointer to their first element and a pointer to
//! their end, with no allocation end.
use vstd::prelude::*;
use vstd::std_specs::convert::FromSpecImpl;
use crate::de::{lemma_data_len_fits, Bin1Deserialize, Bin1Deserializer, DeserializeError, IoError, DeserializerView};
use crate::ser::{
    lemma_extended_by_refl, lemma_extended_by_transitive, Aligned, Bin1Serialize, Bin1Serializer,
    SerializeError, SerializerView, NULL_POINTER_ID, no_pointees, pointee_spec,
};
use crate::types::array::{items_writer, items_resolver, 
    address_of, end_address_of, read_in_order, read_stopped, read_two_words, two_words, END_ID_TAG, START_ID_TAG,
};

verus! {

/// The serialised form of a slice.
pub struct Ser<'a, T: Bin1Serialize>(pub &'a [T]);

impl<'a, T: Bin1Serialize> From<&'a [T]> for Ser<'a, T> {
    fn from(value: &'a [T]) -> (r: Self) {
        Ser(value)
    }
}

impl<'a, T: Bin1Serialize> FromSpecImpl<&'a [T]> for Ser<'a, T> {
    open spec fn obeys_from_spec() -> bool {
        true
    }

    open spec fn from_spec(v: &'a [T]) -> Self {
        Ser(v)
    }
}

impl<'a, T: Bin1Serialize> Aligned for Ser<'a, T> {
    const ALIGNMENT: usize = 8;

    proof fn alignment_is_positive() {
    }
}

impl<'a, T: Bin1Serialize + Aligned> Bin1Serialize for Ser<'a, T> {
    open spec fn alignment_spec(&self) -> usize {
        8
    }

    fn alignment(&self) -> (r: usize)
        ensures
            r == 8,
    {
        proof {
            assert(self.alignment_spec() == 8);
        }
        8
    }

    open spec fn write_spec(&self, before: SerializerView, after: SerializerView, r: Result<(), SerializeError>) -> bool {
        &&& r is Ok
        &&& self.0@.len() == 0 ==> after == before.after_pointer(NULL_POINTER_ID).after_pointer(
            NULL_POINTER_ID,
        )
        &&& self.0@.len() > 0 ==> exists|start_id: u64, end_id: u64|
            #![trigger before.after_pointer(start_id).after_pointer(end_id)]
            after == before.after_pointer(start_id).after_pointer(end_id)
    }

    /// Two null pointers when empty, otherwise pointers to the first element and
    /// to the end.
    fn write(&self, ser: &mut Bin1Serializer) -> (r: Result<(), SerializeError>)
        ensures
            r is Ok,
            self.0@.len() == 0 ==> final(ser)@ == old(ser)@.after_pointer(NULL_POINTER_ID).after_pointer(
                NULL_POINTER_ID,
            ),
            self.0@.len() > 0 ==> exists|start_id: u64, end_id: u64|
                #![trigger old(ser)@.after_pointer(start_id).after_pointer(end_id)]
                final(ser)@ == old(ser)@.after_pointer(start_id).after_pointer(end_id),
    {
        let ghost start = ser@;
        if self.0.len() == 0 {
            ser.write_pointer(NULL_POINTER_ID);
            let ghost s1 = ser@;
            ser.write_pointer(NULL_POINTER_ID);
            proof {
                lemma_extended_by_transitive(start, s1, ser@);
            }
        } else {
            let start_id = address_of(self.0) | START_ID_TAG;
            let end_id = end_address_of(self.0) | END_ID_TAG;
            ser.write_pointer(start_id);
            let ghost s1 = ser@;
            ser.write_pointer(end_id);
            proof {
                lemma_extended_by_transitive(start, s1, ser@);
            }
        }
        Ok(())
    }

    open spec fn resolve_spec(&self, before: SerializerView, after: SerializerView, r: Result<(), SerializeError>) -> bool {
        if self.0@.len() == 0 {
            no_pointees(before, after, r)
        } else {
            exists|start_id: u64, end_id: u64|
                #![trigger pointee_spec(items_writer(self.0@), items_resolver(self.0@), T::ALIGNMENT as nat, start_id, Some(end_id), before, after, r)]
                start_id & START_ID_TAG == START_ID_TAG && end_id & END_ID_TAG == END_ID_TAG
                    && pointee_spec(
                    items_writer(self.0@),
                    items_resolver(self.0@),
                    T::ALIGNMENT as nat,
                    start_id,
                    Some(end_id),
                    before,
                    after,
                    r,
                )
        }
    }

    /// Writes the elements where the pointers point.
    fn resolve(&self, ser: &mut Bin1Serializer) -> (r: Result<(), SerializeError>)
        ensures
            self.0@.len() == 0 ==> final(ser)@ == old(ser)@ && r is Ok,
            self.0@.len() > 0 ==> exists|start_id: u64, end_id: u64|
                #![trigger old(ser)@.offsets.contains_key(start_id), old(ser)@.offsets.contains_key(end_id)]
                start_id & START_ID_TAG == START_ID_TAG && end_id & END_ID_TAG == END_ID_TAG && (old(
                    ser,
                )@.offsets.contains_key(start_id) ==> final(ser)@ == old(ser)@ && r is Ok) && (r is Ok
                    ==> final(ser)@.offsets.contains_key(start_id)) && (r is Ok
                    && !old(ser)@.offsets.contains_key(start_id)
                    ==> final(ser)@.offsets.contains_key(end_id)),
    {
        if self.0.len() > 0 {
            let a = address_of(self.0);
            let b = end_address_of(self.0);
            let start_id = a | START_ID_TAG;
            let end_id = b | END_ID_TAG;
            proof {
                assert(start_id & 0xABCD_0000_0000_0000 == 0xABCD_0000_0000_0000) by (bit_vector)
                    requires
                        start_id == a | 0xABCD_0000_0000_0000,
                ;
                assert(end_id & 0xCAFE_0000_0000_0000 == 0xCAFE_0000_0000_0000) by (bit_vector)
                    requires
                        end_id == b | 0xCAFE_0000_0000_0000,
                ;
            }
            let ghost before = ser@;
            let r = ser.write_pointee(start_id, Some(end_id), self.0);
            proof {
                assert((|b: SerializerView, a: SerializerView, x: Result<(), SerializeError>|
                    self.0.write_spec(b, a, x)) =~= items_writer(self.0@));
                assert((|b: SerializerView, a: SerializerView, x: Result<(), SerializeError>|
                    self.0.resolve_spec(b, a, x)) =~= items_resolver(self.0@));
                assert(self.0.alignment_spec() == T::ALIGNMENT);
                let _ = before.offsets.contains_key(end_id);
                assert(before.offsets.contains_key(start_id) ==> ser@ == before && r is Ok);
            }
            r
        } else {
            proof {
                lemma_extended_by_refl(ser@);
            }
            Ok(())
        }
    }
}

/// The deserialised form of a borrowed array.
pub struct De<T: Bin1Deserialize>(Vec<T>);

impl<T: Bin1Deserialize> De<T> {
    /// The elements read.
    pub closed spec fn items(self) -> Seq<T> {
        self.0@
    }
}

impl<T: Bin1Deserialize> From<De<T>> for Vec<T> {
    fn from(value: De<T>) -> (r: Self) {
        value.0
    }
}

impl<T: Bin1Deserialize> FromSpecImpl<De<T>> for Vec<T> {
    open spec fn obeys_from_spec() -> bool {
        true
    }

    closed spec fn from_spec(v: De<T>) -> Self {
        v.0
    }
}

impl<T: Bin1Deserialize> Aligned for De<T> {
    const ALIGNMENT: usize = 8;

    proof fn alignment_is_positive() {
    }
}

impl<T: Bin1Deserialize> Bin1Deserialize for De<T> {
    const SIZE: usize = 16;

    open spec fn read_spec(before: DeserializerView, after: DeserializerView, r: Result<Self, DeserializeError>) -> bool {
        &&& (!before.align_ok(8) ==> (r matches Err(DeserializeError::Io(IoError::InvalidSeek))))
        &&& (before.align_ok(8) && !before.after_align(8).can_read(16) ==> (r matches Err(
                DeserializeError::Io(IoError::UnexpectedEof),
            )))
        &&& (two_words(before) matches Some((next, s, e)) ==> ((s == NULL_POINTER_ID || e
                == NULL_POINTER_ID) ==> (r matches Ok(v) && v.items().len() == 0 && after == next)) && (r is Ok ==> after == next))
        &&& (two_words(before) matches Some((next, s, e)) ==> (s != NULL_POINTER_ID && e
            != NULL_POINTER_ID ==> (r matches Ok(v) ==> exists|states: Seq<DeserializerView>|
            #![trigger read_in_order(v.items(), states)]
            read_in_order(v.items(), states) && states[0] == before.at(s.wrapping_add(16))
                && states.last().pos == e.wrapping_add(16) && forall|k: int|
                0 <= k < v.items().len() ==> (#[trigger] states[k]).pos != e.wrapping_add(16))))
        &&& (two_words(before) matches Some((next, s, e)) ==> (s != NULL_POINTER_ID && e
            != NULL_POINTER_ID ==> (r is Err ==> exists|values: Seq<T>, states: Seq<DeserializerView>|
            #![trigger read_in_order(values, states)]
            read_in_order(values, states) && states[0] == before.at(s.wrapping_add(16)) && (forall|
                k: int,
            |
                0 <= k < states.len() ==> (#[trigger] states[k]).pos != e.wrapping_add(16)) && (
            values.len() >= before.data.len() || read_stopped(values, states)))))
    }

    /// Reads the start and end pointers; empty if either is null, otherwise the
    /// elements from the start up to the end, returning to just after the pointers.
    fn read(de: &mut Bin1Deserializer) -> (r: Result<Self, DeserializeError>)
        ensures
            !old(de)@.align_ok(8) ==> (r matches Err(DeserializeError::Io(IoError::InvalidSeek))),
            old(de)@.align_ok(8) && !old(de)@.after_align(8).can_read(16) ==> (r matches Err(
                DeserializeError::Io(IoError::UnexpectedEof),
            )),
            two_words(old(de)@) matches Some((after, s, e)) ==> ((s == NULL_POINTER_ID || e
                == NULL_POINTER_ID) ==> (r matches Ok(v) && v.items().len() == 0 && final(de)@
                == after)) && (r is Ok ==> final(de)@ == after),
            two_words(old(de)@) matches Some((next, s, e)) ==> (s != NULL_POINTER_ID && e
                != NULL_POINTER_ID ==> (r matches Ok(v) ==> exists|states: Seq<DeserializerView>|
                #![trigger read_in_order(v.items(), states)]
                read_in_order(v.items(), states) && states[0] == old(de)@.at(s.wrapping_add(16))
                    && states.last().pos == e.wrapping_add(16))),
    {
        proof {
            T::alignment_is_positive();
            lemma_data_len_fits(de);
        }
        let ghost start = de@;
        let (start_ptr, end_ptr) = match read_two_words(de) {
            Ok(w) => w,
            Err(e) => {
                return Err(e);
            },
        };
        let ghost after = de@;
        assert(start.align_ok(8) && start.after_align(8).can_read(16));
        if start_ptr == NULL_POINTER_ID || end_ptr == NULL_POINTER_ID {
            return Ok(De(Vec::new()));
        }
        let pos = de.position();
        de.seek_from_start(start_ptr.wrapping_add(16))?;
        let target = end_ptr.wrapping_add(16);
        let bound = (de.data_len() as u64).saturating_add(1);
        let mut result: Vec<T> = Vec::new();
        let mut count: u64 = 0;
        let ghost mut states: Seq<DeserializerView> = seq![de@];
        proof {
            assert(de@ == start.at(start_ptr.wrapping_add(16)));
        }
        loop
            invariant
                count <= bound,
                start == old(de)@,
                de@.data == start.data,
                de@.type_names == start.type_names,
                T::ALIGNMENT > 0,
                start.align_ok(8),
                start.after_align(8).can_read(16),
                two_words(start) == Some((after, start_ptr, end_ptr)),
                start_ptr != NULL_POINTER_ID && end_ptr != NULL_POINTER_ID,
                after.pos == pos,
                read_in_order(result@, states),
                states[0] == start.at(start_ptr.wrapping_add(16)),
                states.last() == de@,
                target == end_ptr.wrapping_add(16),
                count == result@.len(),
                bound >= start.data.len(),
                forall|k: int| 0 <= k < states.len() - 1 ==> (#[trigger] states[k]).pos != target,
            ensures
                start == old(de)@,
                de@.data == start.data,
                de@.type_names == start.type_names,
                two_words(start) == Some((after, start_ptr, end_ptr)),
                after.pos == pos,
                read_in_order(result@, states),
                states[0] == start.at(start_ptr.wrapping_add(16)),
                states.last().pos == end_ptr.wrapping_add(16),
                forall|k: int| 0 <= k < states.len() - 1 ==> (#[trigger] states[k]).pos != target,
            decreases bound - count,
        {
            if de.position() == target {
                break;
            }
            proof {
                assert forall|k: int| 0 <= k < states.len() implies (#[trigger] states[k]).pos
                    != target by {
                    if k < states.len() - 1 {
                        assert(states[k].pos != target);
                    }
                }
            }
            if count >= bound {
                return Err(DeserializeError::UnterminatedArray);
            }
            let ghost s0 = de@;
            match de.align_to(T::ALIGNMENT) {
                Ok(()) => {},
                Err(e) => {
                    proof {
                        assert(read_stopped(result@, states));
                    }
                    return Err(e);
                },
            }
            assert(s0.align_ok(T::ALIGNMENT));
            let ghost s_a = de@;
            let r1 = T::read(de);
            let ghost s1 = de@;
            assert(T::read_spec(s_a, s1, r1));
            let item = match r1 {
                Ok(item) => {
                    assert(r1 == Ok::<T, DeserializeError>(item));
                    item
                },
                Err(e) => {
                    proof {
                        assert(T::read_spec(states.last().after_align(T::ALIGNMENT), s1, Err(e)));
                        assert(read_stopped(result@, states));
                    }
                    return Err(e);
                },
            };
            assert(T::read_spec(s0.after_align(T::ALIGNMENT), s1, Ok(item)));
            proof {
                let next = states.push(de@);
                let values = result@.push(item);
                let i = result@.len() as int;
                assert forall|k: int| 0 <= k < values.len() implies next[k].align_ok(T::ALIGNMENT)
                    && T::read_spec(next[k].after_align(T::ALIGNMENT), next[k + 1], Ok(values[k])) by {
                    if k < i {
                        assert(next[k] == states[k]);
                        assert(next[k + 1] == states[k + 1]);
                        assert(values[k] == result@[k]);
                        assert(states[k].align_ok(T::ALIGNMENT) && T::read_spec(
                            states[k].after_align(T::ALIGNMENT),
                            states[k + 1],
                            Ok(result@[k]),
                        ));
                    } else {
                        assert(next[k] == s0);
                        assert(next[k + 1] == s1);
                        assert(values[k] == item);
                    }
                }
                assert forall|k: int| 0 <= k < next.len() - 1 implies (#[trigger] next[k]).pos
                    != target by {
                    assert(next[k] == states[k]);
                }
                states = next;
            }
            result.push(item);
            count = count + 1;
        }
        de.seek_from_start(pos)?;
        proof {
            let v = De(result);
            assert(v.items() == result@);
            assert(read_in_order(v.items(), states));
            assert forall|k: int| 0 <= k < v.items().len() implies (#[trigger] states[k]).pos
                != end_ptr.wrapping_add(16) by {
                assert(k < states.len() - 1);
            }
            assert(exists|st: Seq<DeserializerView>|
                #![trigger read_in_order(v.items(), st)]
                read_in_order(v.items(), st) && st[0] == start.at(start_ptr.wrapping_add(16))
                    && st.last().pos == end_ptr.wrapping_add(16) && forall|k: int|
                    0 <= k < v.items().len() ==> (#[trigger] st[k]).pos != end_ptr.wrapping_add(16));
            let rr = Ok::<De<T>, DeserializeError>(v);
            assert(rr matches Ok(w) && w.items() == result@);
            assert(de@ == after);
            assert(Self::read_spec(old(de)@, de@, rr));
        }
        Ok(De(result))
    }
}

} // verus!
