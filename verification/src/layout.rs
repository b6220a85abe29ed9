//! The layout of structures in the data section: their alignment and the size
//! that reading one takes, from the alignments and sizes of their fields.
use vstd::prelude::*;
use vstd::arithmetic::div_mod::{lemma_add_mod_noop, lemma_fundamental_div_mod, lemma_mod_bound, lemma_mod_twice};

verus! {

/// What the layout of a structure needs to know of one of its fields.
#[derive(Debug, Clone, Copy, PartialEq, Eq, Structural)]
pub struct FieldLayout {
    /// The field's alignment.
    pub alignment: usize,
    /// The size that reading the field takes.
    pub size: usize,
    /// Padding bytes written before the field.
    pub pad: usize,
    /// Padding bytes written after the field.
    pub pad_end: usize,
}

/// The number of bytes that bring `size` to a multiple of `alignment`.
pub open spec fn padding_to(size: int, alignment: int) -> int {
    (alignment - size % alignment) % alignment
}

/// The largest of the fields' alignments, 1 for a structure with no fields.
pub open spec fn max_alignment(fields: Seq<FieldLayout>) -> int
    decreases fields.len(),
{
    if fields.len() == 0 {
        1
    } else if fields.len() == 1 {
        fields[0].alignment as int
    } else {
        let rest = max_alignment(fields.drop_last());
        if fields.last().alignment > rest {
            fields.last().alignment as int
        } else {
            rest
        }
    }
}

/// The size that the fields take, each aligned to its alignment and surrounded by
/// its padding.
pub open spec fn fields_size(fields: Seq<FieldLayout>) -> int
    decreases fields.len(),
{
    if fields.len() == 0 {
        0
    } else {
        let before = fields_size(fields.drop_last());
        let f = fields.last();
        before + padding_to(before, f.alignment as int) + f.pad + f.size + f.pad_end
    }
}

/// The size of a structure: its fields, padded to the structure's alignment.
pub open spec fn struct_size(fields: Seq<FieldLayout>, alignment: int) -> int {
    let s = fields_size(fields);
    s + padding_to(s, alignment)
}

/// The offset at which field `i` starts.
pub open spec fn field_offset(fields: Seq<FieldLayout>, i: int) -> int {
    let before = fields_size(fields.take(i));
    before + padding_to(before, fields[i].alignment as int) + fields[i].pad
}

/// Every field has a positive alignment.
pub open spec fn alignments_positive(fields: Seq<FieldLayout>) -> bool {
    forall|i: int| 0 <= i < fields.len() ==> #[trigger] fields[i].alignment > 0
}

/// The alignment of a structure: the one given for it, or else the largest of its
/// fields' alignments.
pub fn struct_alignment(fields: &[FieldLayout], explicit: Option<usize>) -> (r: usize)
    ensures
        explicit matches Some(a) ==> r == a,
        explicit is None ==> r == max_alignment(fields@),
        explicit is None ==> forall|i: int| 0 <= i < fields@.len() ==> (#[trigger] fields@[i]).alignment <= r,
        explicit is None && fields@.len() > 0 ==> exists|i: int|
            0 <= i < fields@.len() && (#[trigger] fields@[i]).alignment == r,
        explicit is None && fields@.len() == 0 ==> r == 1,
{
    proof {
        lemma_max_alignment_is_largest(fields@);
    }
    if let Some(a) = explicit {
        return a;
    }
    if fields.len() == 0 {
        return 1;
    }
    let mut x = fields[0].alignment;
    let mut i: usize = 1;
    while i < fields.len()
        invariant
            1 <= i <= fields@.len(),
            x == max_alignment(fields@.take(i as int)),
        decreases fields@.len() - i,
    {
        proof {
            assert(fields@.take(i + 1).drop_last() =~= fields@.take(i as int));
        }
        if fields[i].alignment > x {
            x = fields[i].alignment;
        }
        i = i + 1;
    }
    assert(fields@.take(fields@.len() as int) =~= fields@);
    x
}

/// A structure's alignment, with none given, is the largest of its fields'
/// alignments: at least each of them and equal to one of them, and 1 where there
/// are no fields.
pub proof fn lemma_max_alignment_is_largest(fields: Seq<FieldLayout>)
    ensures
        forall|i: int| 0 <= i < fields.len() ==> (#[trigger] fields[i]).alignment <= max_alignment(fields),
        fields.len() > 0 ==> exists|i: int|
            0 <= i < fields.len() && (#[trigger] fields[i]).alignment == max_alignment(fields),
        fields.len() == 0 ==> max_alignment(fields) == 1,
    decreases fields.len(),
{
    if fields.len() > 1 {
        let rest = fields.drop_last();
        lemma_max_alignment_is_largest(rest);
        assert forall|i: int| 0 <= i < fields.len() implies (#[trigger] fields[i]).alignment
            <= max_alignment(fields) by {
            if i < rest.len() {
                assert(rest[i] == fields[i]);
            }
        }
        if fields.last().alignment > max_alignment(rest) {
            assert(fields[fields.len() - 1].alignment == max_alignment(fields));
        } else {
            let j = choose|j: int| 0 <= j < rest.len() && (#[trigger] rest[j]).alignment == max_alignment(rest);
            assert(fields[j] == rest[j]);
        }
    } else if fields.len() == 1 {
        assert(fields[0].alignment == max_alignment(fields));
    }
}

/// The padding of a field never exceeds what its alignment needs.
proof fn lemma_padding_bound(size: int, alignment: int)
    requires
        alignment > 0,
    ensures
        0 <= padding_to(size, alignment) < alignment,
        (size + padding_to(size, alignment)) % alignment == 0,
{
    lemma_mod_bound(size, alignment);
    let p = padding_to(size, alignment);
    lemma_mod_bound(alignment - size % alignment, alignment);
    assert((size + p) % alignment == 0) by (nonlinear_arith)
        requires
            alignment > 0,
            p == (alignment - size % alignment) % alignment,
            0 <= size % alignment < alignment,
    ;
}

/// The sizes of the fields only grow as fields are added.
proof fn lemma_fields_size_monotone(fields: Seq<FieldLayout>, i: int)
    requires
        0 <= i <= fields.len(),
        alignments_positive(fields),
    ensures
        0 <= fields_size(fields.take(i)) <= fields_size(fields),
    decreases fields.len(),
{
    if i < fields.len() {
        let rest = fields.drop_last();
        assert(alignments_positive(rest)) by {
            assert forall|j: int| 0 <= j < rest.len() implies #[trigger] rest[j].alignment > 0 by {
                assert(rest[j] == fields[j]);
            }
        }
        lemma_fields_size_monotone(rest, i);
        assert(rest.take(i) =~= fields.take(i));
        assert(fields.last().alignment > 0);
        lemma_padding_bound(fields_size(rest), fields.last().alignment as int);
    } else {
        assert(fields.take(i) =~= fields);
        if fields.len() > 0 {
            let rest = fields.drop_last();
            assert(alignments_positive(rest)) by {
                assert forall|j: int| 0 <= j < rest.len() implies #[trigger] rest[j].alignment > 0 by {
                    assert(rest[j] == fields[j]);
                }
            }
            lemma_fields_size_monotone(rest, rest.len() as int);
            assert(rest.take(rest.len() as int) =~= rest);
            assert(fields.last().alignment > 0);
            lemma_padding_bound(fields_size(rest), fields.last().alignment as int);
        }
    }
}

/// The size that the fields of a structure take, before its end padding.
fn fields_size_of(fields: &[FieldLayout], alignment: usize) -> (r: usize)
    requires
        alignment > 0,
        alignments_positive(fields@),
        struct_size(fields@, alignment as int) <= usize::MAX,
    ensures
        r == fields_size(fields@),
{
    let mut size: usize = 0;
    let mut i: usize = 0;
    proof {
        lemma_fields_size_monotone(fields@, fields@.len() as int);
        assert(fields@.take(fields@.len() as int) =~= fields@);
        lemma_padding_bound(fields_size(fields@), alignment as int);
        assert(fields@.take(0) =~= Seq::<FieldLayout>::empty());
    }
    while i < fields.len()
        invariant
            i <= fields@.len(),
            alignments_positive(fields@),
            fields_size(fields@) <= usize::MAX,
            size == fields_size(fields@.take(i as int)),
        decreases fields@.len() - i,
    {
        let f = fields[i];
        proof {
            assert(fields@.take(i + 1).drop_last() =~= fields@.take(i as int));
            lemma_fields_size_monotone(fields@, i + 1);
            assert(f.alignment > 0);
            lemma_padding_bound(size as int, f.alignment as int);
        }
        let padding = (f.alignment - size % f.alignment) % f.alignment;
        size = size + padding + f.pad + f.size + f.pad_end;
        i = i + 1;
    }
    assert(fields@.take(fields@.len() as int) =~= fields@);
    size
}

/// The size of a structure, as reading one takes it.
pub fn struct_size_of(fields: &[FieldLayout], alignment: usize) -> (r: usize)
    requires
        alignment > 0,
        alignments_positive(fields@),
        struct_size(fields@, alignment as int) <= usize::MAX,
    ensures
        r == struct_size(fields@, alignment as int),
{
    let size = fields_size_of(fields, alignment);
    proof {
        lemma_padding_bound(size as int, alignment as int);
    }
    size + (alignment - size % alignment) % alignment
}

/// The number of bytes skipped after the last field when reading a structure.
pub fn end_padding(fields: &[FieldLayout], alignment: usize) -> (r: usize)
    requires
        alignment > 0,
        alignments_positive(fields@),
        struct_size(fields@, alignment as int) <= usize::MAX,
    ensures
        r == padding_to(fields_size(fields@), alignment as int),
{
    let size = fields_size_of(fields, alignment);
    proof {
        lemma_padding_bound(size as int, alignment as int);
    }
    (alignment - size % alignment) % alignment
}

/// The size of a structure is a multiple of its alignment, and no smaller than
/// what its fields take.
pub proof fn lemma_struct_size_aligned(fields: Seq<FieldLayout>, alignment: int)
    requires
        alignment > 0,
    ensures
        struct_size(fields, alignment) % alignment == 0,
        fields_size(fields) <= struct_size(fields, alignment) < fields_size(fields) + alignment,
{
    lemma_padding_bound(fields_size(fields), alignment);
}

/// A field with no leading padding starts at a multiple of its alignment, and every
/// field lies within the structure, after the fields before it.
pub proof fn lemma_field_offsets(fields: Seq<FieldLayout>, alignment: int, i: int)
    requires
        alignments_positive(fields),
        alignment > 0,
        0 <= i < fields.len(),
    ensures
        fields[i].pad == 0 ==> field_offset(fields, i) % (fields[i].alignment as int) == 0,
        fields_size(fields.take(i)) <= field_offset(fields, i),
        field_offset(fields, i) + fields[i].size + fields[i].pad_end == fields_size(
            fields.take(i + 1),
        ),
        field_offset(fields, i) + fields[i].size <= struct_size(fields, alignment),
{
    assert(fields[i].alignment > 0);
    lemma_padding_bound(fields_size(fields.take(i)), fields[i].alignment as int);
    assert(fields.take(i + 1).drop_last() =~= fields.take(i));
    lemma_fields_size_monotone(fields, i + 1);
    lemma_padding_bound(fields_size(fields), alignment);
}

/// The cursor after reading the fields of a structure from `start`: for each field,
/// its leading padding skipped, the cursor aligned to the field's alignment within
/// the data section (which starts at 16), the field read and its trailing padding
/// skipped.
pub open spec fn cursor_after_fields(fields: Seq<FieldLayout>, start: int) -> int
    decreases fields.len(),
{
    if fields.len() == 0 {
        start
    } else {
        let before = cursor_after_fields(fields.drop_last(), start);
        let f = fields.last();
        let padded = before + f.pad;
        padded + padding_to(padded - 16, f.alignment as int) + f.size + f.pad_end
    }
}

/// The cursor after reading a structure from `start`: its fields, then the padding
/// that brings their size to the structure's alignment.
pub open spec fn cursor_after_struct(fields: Seq<FieldLayout>, alignment: int, start: int) -> int {
    cursor_after_fields(fields, start) + padding_to(fields_size(fields), alignment)
}

proof fn lemma_padding_shift(x: int, shift: int, a: int)
    requires
        a > 0,
        shift % a == 0,
    ensures
        padding_to(x + shift, a) == padding_to(x, a),
{
    lemma_add_mod_noop(x, shift, a);
    lemma_mod_twice(x, a);
}

proof fn lemma_cursor_after_fields(fields: Seq<FieldLayout>, start: int)
    requires
        alignments_positive(fields),
        forall|i: int| 0 <= i < fields.len() ==> (#[trigger] fields[i].pad as int) % (fields[i].alignment as int) == 0,
        forall|i: int| 0 <= i < fields.len() ==> (start - 16) % (#[trigger] fields[i].alignment as int) == 0,
    ensures
        cursor_after_fields(fields, start) == start + fields_size(fields),
    decreases fields.len(),
{
    if fields.len() > 0 {
        let rest = fields.drop_last();
        assert(forall|i: int| 0 <= i < rest.len() ==> #[trigger] rest[i] == fields[i]);
        lemma_cursor_after_fields(rest, start);
        let f = fields.last();
        let a = f.alignment as int;
        assert(f == fields[fields.len() - 1]);
        let s = fields_size(rest);
        lemma_add_mod_noop(start - 16, f.pad as int, a);
        assert(0int % a == 0);
        lemma_padding_shift(s, start - 16 + f.pad, a);
        assert(start + s + f.pad - 16 == s + (start - 16 + f.pad));
    }
}

/// The size of a structure is what reading one takes: from a cursor aligned, within
/// the data section, to every field's alignment, where each field's leading padding
/// is a multiple of its alignment, reading the structure moves the cursor by its
/// size.
pub proof fn lemma_reading_takes_struct_size(fields: Seq<FieldLayout>, alignment: int, start: int)
    requires
        alignments_positive(fields),
        alignment > 0,
        forall|i: int| 0 <= i < fields.len() ==> (#[trigger] fields[i].pad as int) % (fields[i].alignment as int) == 0,
        forall|i: int| 0 <= i < fields.len() ==> (start - 16) % (#[trigger] fields[i].alignment as int) == 0,
    ensures
        cursor_after_struct(fields, alignment, start) == start + struct_size(fields, alignment),
{
    lemma_cursor_after_fields(fields, start);
}

} // verus!
