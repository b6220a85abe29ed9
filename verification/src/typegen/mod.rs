//! Generation of Rust type definitions from the game's type descriptions: the
//! names that the types, fields and variants get in Rust, which types are
//! generated and in what order, and the items that describe them.
pub mod text;
pub mod pattern;
pub mod names;
pub mod select;
pub mod emit;
pub mod items;
pub mod scope_model;

use vstd::prelude::*;
use crate::typegen::text::chars_of;
use crate::typegen::names::{
    fits_case_conversion, field_rust_name, type_rust_name, rust_type_name, rust_field_name,
    rust_type_ident, rust_type, variant_rust_name, common_prefix, common_variant_prefix,
    rust_variant_name,
};

verus! {

/// A field of a structure, as the type descriptions give it.
pub struct FieldDef {
    pub name: String,
    pub ty: String,
}

/// A structure, as the type descriptions give it.
pub struct StructDef {
    pub name: String,
    pub alignment: Option<usize>,
    pub fields: Vec<FieldDef>,
}

/// A variant of an enum, as the type descriptions give it.
pub struct VariantDef {
    pub name: String,
    pub value: i64,
}

/// An enum, as the type descriptions give it.
pub struct EnumDef {
    pub name: String,
    pub size: usize,
    pub values: Vec<VariantDef>,
}

/// The type descriptions.
pub struct Types {
    pub structs: Vec<StructDef>,
    pub enums: Vec<EnumDef>,
}

/// A field with its Rust name and type.
pub struct RustField {
    pub field_name: String,
    pub rust_name: String,
    pub ty: String,
}

/// A structure with its Rust name and fields.
pub struct RustStruct {
    pub type_id: String,
    pub rust_name: String,
    pub alignment: Option<usize>,
    pub fields: Vec<RustField>,
}

/// A variant with its Rust name.
pub struct RustVariant {
    pub variant_name: String,
    pub rust_name: String,
    pub value: i64,
}

/// An enum with its Rust name and variants.
pub struct RustEnum {
    pub type_id: String,
    pub rust_name: String,
    pub size: usize,
    pub values: Vec<RustVariant>,
}

/// The type descriptions with their Rust names.
pub struct RustTypes {
    pub structs: Vec<RustStruct>,
    pub enums: Vec<RustEnum>,
}

/// `r` is the field `f` with its Rust name and type.
pub open spec fn field_converted(f: FieldDef, r: RustField) -> bool {
    &&& r.field_name@ == f.name@
    &&& r.rust_name@ == field_rust_name(f.name@)
    &&& rust_type_name(f.ty@) == Some(r.ty@)
}

/// `r` is the structure `s` with its Rust names.
pub open spec fn struct_converted(s: StructDef, r: RustStruct) -> bool {
    &&& r.type_id@ == s.name@
    &&& r.rust_name@ == type_rust_name(s.name@)
    &&& r.alignment == s.alignment
    &&& r.fields@.len() == s.fields@.len()
    &&& forall|j: int|
        0 <= j < s.fields@.len() ==> #[trigger] field_converted(s.fields@[j], r.fields@[j])
}

/// The names of an enum's variants.
pub open spec fn variant_names(e: EnumDef) -> Seq<Seq<char>> {
    e.values@.map_values(|v: VariantDef| v.name@)
}

/// `r` is the variant `v` of an enum whose variants have the common prefix `prefix`.
pub open spec fn variant_converted(prefix: Option<Seq<char>>, v: VariantDef, r: RustVariant) -> bool {
    &&& r.variant_name@ == v.name@
    &&& r.rust_name@ == variant_rust_name(prefix, v.name@)
    &&& r.value == v.value
}

/// `r` is the enum `e` with its Rust names.
pub open spec fn enum_converted(e: EnumDef, r: RustEnum) -> bool {
    &&& r.type_id@ == e.name@
    &&& r.rust_name@ == type_rust_name(e.name@)
    &&& r.size == e.size
    &&& r.values@.len() == e.values@.len()
    &&& forall|j: int|
        0 <= j < e.values@.len() ==> #[trigger] variant_converted(
            common_prefix(variant_names(e)),
            e.values@[j],
            r.values@[j],
        )
}

/// `r` is `t` with the Rust names of its types.
pub open spec fn types_converted(t: Types, r: RustTypes) -> bool {
    &&& r.structs@.len() == t.structs@.len()
    &&& r.enums@.len() == t.enums@.len()
    &&& forall|i: int|
        0 <= i < t.structs@.len() ==> #[trigger] struct_converted(t.structs@[i], r.structs@[i])
    &&& forall|i: int|
        0 <= i < t.enums@.len() ==> #[trigger] enum_converted(t.enums@[i], r.enums@[i])
}

/// Whether the fields of `s` can be converted: every type name has a Rust type,
/// and every name fits the case conversions.
pub open spec fn struct_convertible(s: StructDef) -> bool {
    forall|j: int|
        0 <= j < s.fields@.len() ==> {
            &&& rust_type_name(#[trigger] s.fields@[j].ty@) is Some
            &&& fits_case_conversion(s.fields@[j].name@)
        }
}

/// Whether the variants of `e` can be converted: there is at least one, and every
/// name fits the case conversions.
pub open spec fn enum_convertible(e: EnumDef) -> bool {
    &&& e.values@.len() > 0
    &&& forall|j: int|
        0 <= j < e.values@.len() ==> fits_case_conversion(#[trigger] e.values@[j].name@)
}

/// Whether every structure and enum of `t` can be converted.
pub open spec fn types_convertible(t: Types) -> bool {
    &&& forall|i: int| 0 <= i < t.structs@.len() ==> #[trigger] struct_convertible(t.structs@[i])
    &&& forall|i: int| 0 <= i < t.enums@.len() ==> #[trigger] enum_convertible(t.enums@[i])
}

/// Gives a structure and its fields their Rust names and types.
pub fn process_struct(s: &StructDef) -> (r: RustStruct)
    requires
        struct_convertible(*s),
    ensures
        struct_converted(*s, r),
{
    let mut fields: Vec<RustField> = Vec::new();
    let mut j: usize = 0;
    while j < s.fields.len()
        invariant
            j <= s.fields@.len(),
            struct_convertible(*s),
            fields@.len() == j,
            forall|k: int| 0 <= k < j ==> #[trigger] field_converted(s.fields@[k], fields@[k]),
        decreases s.fields@.len() - j,
    {
        let f = &s.fields[j];
        assert(rust_type_name(s.fields@[j as int].ty@) is Some);
        let ty_chars = chars_of(f.ty.as_str());
        let ty = match rust_type(ty_chars.as_slice()) {
            Some(t) => t,
            None => {
                proof {
                    assert(false);
                }
                Vec::new()
            },
        };
        let converted = RustField {
            field_name: f.name.clone(),
            rust_name: rust_field_name(f.name.as_str()),
            ty: crate::typegen::text::string_of(ty.as_slice()),
        };
        fields.push(converted);
        j = j + 1;
    }
    RustStruct {
        type_id: s.name.clone(),
        rust_name: rust_type_ident(s.name.as_str()),
        alignment: s.alignment,
        fields,
    }
}

/// Gives an enum and its variants their Rust names.
pub fn process_enum(e: &EnumDef) -> (r: RustEnum)
    requires
        enum_convertible(*e),
    ensures
        enum_converted(*e, r),
{
    let mut names: Vec<Vec<char>> = Vec::new();
    let mut j: usize = 0;
    while j < e.values.len()
        invariant
            j <= e.values@.len(),
            names@.len() == j,
            forall|k: int| 0 <= k < j ==> #[trigger] names@[k]@ == e.values@[k].name@,
        decreases e.values@.len() - j,
    {
        names.push(chars_of(e.values[j].name.as_str()));
        j = j + 1;
    }
    assert(names@.map_values(|n: Vec<char>| n@) =~= variant_names(*e));
    let prefix = common_variant_prefix(&names);
    let ghost prefix_view = common_prefix(variant_names(*e));
    let mut values: Vec<RustVariant> = Vec::new();
    let mut j: usize = 0;
    while j < e.values.len()
        invariant
            j <= e.values@.len(),
            enum_convertible(*e),
            names@.len() == e.values@.len(),
            forall|k: int| 0 <= k < e.values@.len() ==> #[trigger] names@[k]@ == e.values@[k].name@,
            prefix_view == common_prefix(variant_names(*e)),
            prefix_view == (match prefix {
                Some(p) => Some(p@),
                None => None,
            }),
            values@.len() == j,
            forall|k: int|
                0 <= k < j ==> #[trigger] variant_converted(prefix_view, e.values@[k], values@[k]),
        decreases e.values@.len() - j,
    {
        let v = &e.values[j];
        assert(names@[j as int]@ == e.values@[j as int].name@);
        let converted = RustVariant {
            variant_name: v.name.clone(),
            rust_name: rust_variant_name(&prefix, names[j].as_slice()),
            value: v.value,
        };
        values.push(converted);
        j = j + 1;
    }
    RustEnum {
        type_id: e.name.clone(),
        rust_name: rust_type_ident(e.name.as_str()),
        size: e.size,
        values,
    }
}

/// Gives every structure and enum of the descriptions its Rust names, in the order
/// of the descriptions.
pub fn process_types(types: Types) -> (r: RustTypes)
    requires
        types_convertible(types),
    ensures
        types_converted(types, r),
{
    let mut structs: Vec<RustStruct> = Vec::new();
    let mut i: usize = 0;
    while i < types.structs.len()
        invariant
            i <= types.structs@.len(),
            types_convertible(types),
            structs@.len() == i,
            forall|k: int|
                0 <= k < i ==> #[trigger] struct_converted(types.structs@[k], structs@[k]),
        decreases types.structs@.len() - i,
    {
        assert(struct_convertible(types.structs@[i as int]));
        structs.push(process_struct(&types.structs[i]));
        i = i + 1;
    }
    let mut enums: Vec<RustEnum> = Vec::new();
    let mut i: usize = 0;
    while i < types.enums.len()
        invariant
            i <= types.enums@.len(),
            types_convertible(types),
            enums@.len() == i,
            forall|k: int| 0 <= k < i ==> #[trigger] enum_converted(types.enums@[k], enums@[k]),
        decreases types.enums@.len() - i,
    {
        assert(enum_convertible(types.enums@[i as int]));
        enums.push(process_enum(&types.enums[i]));
        i = i + 1;
    }
    RustTypes { structs, enums }
}

} // verus!
