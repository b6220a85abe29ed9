use glacier_bin1::de::Bin1Deserializer;
use glacier_bin1::layout::{end_padding, struct_alignment, struct_size_of, FieldLayout};

fn field(alignment: usize, size: usize) -> FieldLayout {
    FieldLayout { alignment, size, pad: 0, pad_end: 0 }
}

#[test]
fn structure_is_aligned_to_its_widest_field() {
    let fields = [field(1, 1), field(4, 4), field(8, 8)];
    assert_eq!(struct_alignment(&fields, None), 8);
    assert_eq!(struct_alignment(&fields, Some(16)), 16);
    assert_eq!(struct_alignment(&[], None), 1);
}

#[test]
fn structure_size_counts_padding() {
    let fields = [field(1, 1), field(4, 4)];
    assert_eq!(struct_size_of(&fields, 4), 8);
    let fields = [field(8, 8), field(1, 1)];
    assert_eq!(struct_size_of(&fields, 8), 16);
    assert_eq!(end_padding(&fields, 8), 7);
}

#[test]
fn explicit_padding_is_counted() {
    let fields = [FieldLayout { alignment: 4, size: 4, pad: 2, pad_end: 1 }];
    assert_eq!(struct_size_of(&fields, 4), 8);
    assert_eq!(end_padding(&fields, 4), 1);
}

#[test]
fn reading_a_structure_takes_its_size() {
    // A structure { a: u8, b: u32 (pad 4), c: u64 } read from the start of the data section.
    let fields = [
        field(1, 1),
        FieldLayout { alignment: 4, size: 4, pad: 4, pad_end: 0 },
        field(8, 8),
    ];
    let alignment = struct_alignment(&fields, None);
    let size = struct_size_of(&fields, alignment);
    assert_eq!(size, 24);

    let data = vec![0u8; 16 + 64];
    let mut de = Bin1Deserializer::new(&data);
    de.seek_from_start(16).unwrap();
    de.read_u8().unwrap();
    de.seek_relative(4).unwrap();
    de.align_to(4).unwrap();
    de.read_u32().unwrap();
    de.align_to(8).unwrap();
    de.read_u64().unwrap();
    de.seek_relative(end_padding(&fields, alignment) as i64).unwrap();
    assert_eq!(de.position(), 16 + size as u64);
}
