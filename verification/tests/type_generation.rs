use glacier_bin1::typegen::emit::{generate, generation_items, try_generate};
use glacier_bin1::typegen::items::{enum_item, struct_item, GenItem};
use glacier_bin1::typegen::select::Import;
use glacier_bin1::typegen::names::{rust_field_name, rust_type, rust_type_ident, rust_variant_name, common_variant_prefix};
use glacier_bin1::typegen::select::field_type_splits;
use glacier_bin1::typegen::{process_types, EnumDef, FieldDef, StructDef, Types, VariantDef};

fn rust_type_of(name: &str) -> String {
    let chars: Vec<char> = name.chars().collect();
    rust_type(&chars).unwrap().into_iter().collect()
}

#[test]
fn unconvertible_type_names() {
    let no_comma: Vec<char> = "TFixedArray<uint8>".chars().collect();
    assert!(rust_type(&no_comma).is_none());
    let not_a_number: Vec<char> = "TFixedArray<uint8, x>".chars().collect();
    assert!(rust_type(&not_a_number).is_none());
    let nested: Vec<char> = "TArray<TFixedArray<uint8, -1>>".chars().collect();
    assert!(rust_type(&nested).is_none());
    let no_close: Vec<char> = "TPair<uint8, bool".chars().collect();
    assert!(rust_type(&no_close).is_none());
}

#[test]
fn pair_field_types_split() {
    assert!(field_type_splits("Vec<(u8, bool)>"));
    assert!(field_type_splits("u32"));
    assert!(!field_type_splits("(u8"));
}

#[test]
fn primitive_type_names() {
    assert_eq!(rust_type_of("int8_t"), "i8");
    assert_eq!(rust_type_of("uint32"), "u32");
    assert_eq!(rust_type_of("size_t"), "u64");
    assert_eq!(rust_type_of("char"), "u8");
    assert_eq!(rust_type_of("float64"), "f64");
    assert_eq!(rust_type_of("ZString"), "EcoString");
}

#[test]
fn generic_type_names() {
    assert_eq!(rust_type_of("TArray<uint32>"), "Vec<u32>");
    assert_eq!(rust_type_of("TArray<TArray<ZString>>"), "Vec<Vec<EcoString>>");
    assert_eq!(rust_type_of("TFixedArray<float32, 4>"), "[f32; 4]");
    assert_eq!(rust_type_of("TFixedArray<TPair<int8,bool>,+07>"), "[(i8, bool); 7]");
    assert_eq!(rust_type_of("TPair<ZString, int32>"), "(EcoString, i32)");
    assert_eq!(rust_type_of("ZHMPtrLen<SVector3>"), "ZHMPtrLen<SVector3>");
    assert_eq!(rust_type_of("AI.SFirePattern01"), "AI_SFirePattern01");
}

#[test]
fn type_identifiers_replace_dots() {
    assert_eq!(rust_type_ident("ZSharedSensorDef.SVisibilitySetting"), "ZSharedSensorDef_SVisibilitySetting");
    assert_eq!(rust_type_ident("SVector3"), "SVector3");
}

#[test]
fn field_names() {
    assert_eq!(rust_field_name("m_fValue"), "value");
    assert_eq!(rust_field_name("m_vPos"), "pos");
    assert_eq!(rust_field_name("m12"), "m12");
    assert_eq!(rust_field_name("x_axis"), "x_axis");
    assert_eq!(rust_field_name("type"), "r#type");
    assert_eq!(rust_field_name("ref"), "reference");
    assert_eq!(rust_field_name("move"), "r#move");
    assert_eq!(rust_field_name("m_type"), "r#type");
}

fn chars(s: &str) -> Vec<char> {
    s.chars().collect()
}

#[test]
fn variant_names() {
    let names = vec![chars("EKIND_A"), chars("EKIND_B")];
    let prefix = common_variant_prefix(&names);
    assert_eq!(prefix, Some(chars("EKIND")));
    assert_eq!(rust_variant_name(&prefix, &names[0]), "A");

    let digits = vec![chars("E_1"), chars("E_2")];
    let prefix = common_variant_prefix(&digits);
    assert_eq!(rust_variant_name(&prefix, &digits[1]), "_2");

    let mixed = vec![chars("ONE_TWO"), chars("THREE_FOUR")];
    let prefix = common_variant_prefix(&mixed);
    assert_eq!(prefix, None);
    assert_eq!(rust_variant_name(&prefix, &mixed[0]), "OneTwo");

    let lower = vec![chars("Foo"), chars("Bar")];
    let prefix = common_variant_prefix(&lower);
    assert_eq!(rust_variant_name(&prefix, &lower[1]), "Bar");
}

fn field(name: &str, ty: &str) -> FieldDef {
    FieldDef { name: name.to_owned(), ty: ty.to_owned() }
}

fn sample_types() -> Types {
    Types {
        structs: vec![
            StructDef { name: "ZRuntimeResourceID".to_owned(), alignment: None, fields: vec![field("m_IDHigh", "uint32"), field("m_IDLow", "uint32")] },
            StructDef { name: "SEntityTemplateProperty".to_owned(), alignment: None, fields: vec![] },
            StructDef { name: "SVector3".to_owned(), alignment: Some(4), fields: vec![field("x", "float32"), field("y", "float32"), field("z", "float32")] },
            StructDef {
                name: "SFoo".to_owned(),
                alignment: None,
                fields: vec![field("m_vPos", "SVector3"), field("m_aItems", "TArray<uint32>"), field("m_eKind", "EKind"), field("m_aFixed", "TFixedArray<uint8, 3>")],
            },
            StructDef { name: "SUnused".to_owned(), alignment: None, fields: vec![field("m_n", "int32")] },
        ],
        enums: vec![EnumDef {
            name: "EKind".to_owned(),
            size: 4,
            values: vec![VariantDef { name: "EKIND_A".to_owned(), value: 0 }, VariantDef { name: "EKIND_B".to_owned(), value: -1 }],
        }],
    }
}

#[test]
fn processed_types_keep_their_order() {
    let processed = process_types(sample_types());
    let names: Vec<&str> = processed.structs.iter().map(|s| s.rust_name.as_str()).collect();
    assert_eq!(names, vec!["ZRuntimeResourceID", "SEntityTemplateProperty", "SVector3", "SFoo", "SUnused"]);
    let foo = &processed.structs[3];
    assert_eq!(foo.fields[0].rust_name, "pos");
    assert_eq!(foo.fields[1].ty, "Vec<u32>");
    assert_eq!(foo.fields[3].ty, "[u8; 3]");
    assert_eq!(processed.enums[0].values[1].rust_name, "B");
}

#[test]
fn generation_follows_the_fields() {
    let mut scope = codegen::Scope::new();
    generate(&mut scope, sample_types(), Types { structs: vec![], enums: vec![] }, &[&["SFoo"]]);
    let text = scope.to_string();
    assert!(text.contains("pub struct SFoo"));
    assert!(text.contains("pub struct SVector3"));
    assert!(!text.contains("pub struct SUnused"));
    assert!(text.contains("#[bin1(alignment = 4)]"));
    assert!(text.contains("pub pos: SVector3"));
    assert!(text.contains("#[serde(rename = \"m_vPos\")]"));
    assert!(text.contains("#[serde_as(as = \"[_; 3]\")]"));
    assert!(text.contains("use serde_with::serde_as;"));
    assert!(text.contains("use std::str::FromStr;"));
    assert!(text.contains("pub enum EKind"));
    assert!(text.contains("#[repr(u32)]"));
    assert!(text.contains("-1 => Self::B,"));
    assert!(text.contains("submit!(SFoo, \"SFoo\");"));
    assert!(text.contains("submit!(EKind, \"EKind\");"));
    let foo = text.find("pub struct SFoo").unwrap();
    let vector = text.find("pub struct SVector3").unwrap();
    assert!(foo < vector);
}

#[test]
fn generated_items_in_order() {
    let items = generation_items(sample_types(), Types { structs: vec![], enums: vec![] }, &[&["SFoo"]]);
    let kinds: Vec<String> = items
        .iter()
        .map(|item| match item {
            GenItem::Import(Import::FromStr) => "import FromStr".to_owned(),
            GenItem::Import(Import::SerdeAs) => "import serde_as".to_owned(),
            GenItem::Import(_) => "import".to_owned(),
            GenItem::Struct(s) => format!("struct {}", s.name),
            GenItem::Enum(e) => format!("enum {}", e.name),
        })
        .collect();
    assert_eq!(kinds, vec!["import FromStr", "import serde_as", "struct SFoo", "struct SVector3", "enum EKind"]);
}

#[test]
fn structure_item_texts() {
    let processed = process_types(sample_types());
    let vector = struct_item(&processed.structs[2]);
    assert_eq!(vector.attrs, vec!["bin1(alignment = 4)", "derive(serde::Serialize, serde::Deserialize)"]);
    assert_eq!(vector.submit, "submit!(SVector3, \"SVector3\");");
    let foo = struct_item(&processed.structs[3]);
    assert_eq!(foo.attrs, vec!["serde_as", "derive(serde::Serialize, serde::Deserialize)"]);
    assert_eq!(foo.fields[3].name, "fixed");
    assert_eq!(foo.fields[3].ty, "[u8; 3]");
    assert_eq!(
        foo.fields[3].annotations,
        vec!["#[serde(rename = \"m_aFixed\")]", "#[facet(rename = \"m_aFixed\")]", "#[serde_as(as = \"[_; 3]\")]"]
    );
}

#[test]
fn enum_item_texts() {
    let processed = process_types(sample_types());
    let kind = enum_item(&processed.enums[0]);
    assert_eq!(kind.name, "EKind");
    assert_eq!(kind.repr, "u32");
    assert_eq!(kind.variants[1].name, "B");
    assert_eq!(kind.variants[1].annotations, vec!["#[serde(rename = \"EKIND_B\")]", "#[facet(rename = \"EKIND_B\")]"]);
    assert_eq!(kind.impls.len(), 7);
    let to_int = &kind.impls[3];
    assert_eq!(to_int.target, "i32");
    assert_eq!(to_int.trait_name, "From<EKind>");
    let block = to_int.fns[0].block.as_ref().unwrap();
    assert_eq!(block.lines, vec!["EKind::A => 0,", "EKind::B => -1,"]);
    let try_from = kind.impls[4].fns[0].block.as_ref().unwrap();
    assert_eq!(try_from.before, "Ok(match value");
    assert_eq!(try_from.lines, vec!["0 => Self::A,", "-1 => Self::B,", "_ => return Err(())"]);
    assert_eq!(try_from.after.as_deref(), Some(")"));
    assert_eq!(kind.submit, "submit!(EKind, \"EKind\");");
}

#[test]
fn generation_submits_only_the_selected_structures() {
    let types = Types {
        structs: vec![
            StructDef { name: "ZRuntimeResourceID".to_owned(), alignment: None, fields: vec![] },
            StructDef { name: "SEntityTemplateProperty".to_owned(), alignment: None, fields: vec![] },
            StructDef { name: "SFoo".to_owned(), alignment: None, fields: vec![field("m_aBars", "TArray<SBar>")] },
            StructDef { name: "SBar".to_owned(), alignment: None, fields: vec![] },
        ],
        enums: vec![],
    };
    let mut scope = codegen::Scope::new();
    generate(&mut scope, types, Types { structs: vec![], enums: vec![] }, &[&["SFoo"]]);
    let text = scope.to_string();
    assert!(text.contains("pub struct SFoo"));
    assert!(text.contains("pub struct SBar"));
    assert!(text.contains("submit!(SFoo, \"SFoo\");"));
    assert!(text.contains("submit!(SBar, \"SBar\");"));
    assert!(!text.contains("submit!(ZRuntimeResourceID"));
    assert!(!text.contains("submit!(SEntityTemplateProperty"));
}

#[test]
fn pointer_and_length_fields_become_vectors() {
    let types = Types {
        structs: vec![
            StructDef { name: "ZRuntimeResourceID".to_owned(), alignment: None, fields: vec![] },
            StructDef { name: "SEntityTemplateProperty".to_owned(), alignment: None, fields: vec![] },
            StructDef { name: "SList".to_owned(), alignment: None, fields: vec![field("m_aValues", "ZHMPtrLen<uint16>")] },
        ],
        enums: vec![],
    };
    let mut scope = codegen::Scope::new();
    generate(&mut scope, types, Types { structs: vec![], enums: vec![] }, &[&["SList"]]);
    let text = scope.to_string();
    assert!(text.contains("pub values: Vec<u16>"));
    assert!(text.contains("#[bin1(as = \"ZHMPtrLen::<u16>\")]"));
    assert!(text.contains("use hitman_bin1_core::types::array::ZHMPtrLen;"));
}

#[test]
fn pair_parts_are_taken_greedily() {
    assert_eq!(rust_type_of("TPair<TPair<int8, bool>, uint16>"), "((i8, bool), u16)");
    assert_eq!(rust_type_of("TFixedArray<TFixedArray<bool, 2>, 3>"), "[[bool; 2]; 3]");
}

fn types_with_unusable_parts() -> Types {
    Types {
        structs: vec![
            StructDef { name: "ZRuntimeResourceID".to_owned(), alignment: None, fields: vec![] },
            StructDef { name: "SEntityTemplateProperty".to_owned(), alignment: None, fields: vec![] },
            StructDef { name: "SFoo".to_owned(), alignment: None, fields: vec![field("m_nValue", "int32")] },
            StructDef { name: "SBad".to_owned(), alignment: None, fields: vec![field("m_pair", "(x)")] },
        ],
        enums: vec![EnumDef {
            name: "EOdd".to_owned(),
            size: 3,
            values: vec![VariantDef { name: "EODD_A".to_owned(), value: 0 }],
        }],
    }
}

#[test]
fn generation_goes_through_when_the_unusable_types_are_not_reached() {
    let mut scope = codegen::Scope::new();
    assert!(try_generate(&mut scope, types_with_unusable_parts(), Types { structs: vec![], enums: vec![] }, &[&["SFoo"]]));
    let text = scope.to_string();
    assert!(text.contains("pub struct SFoo"));
    assert!(!text.contains("SBad"));
    assert!(!text.contains("EOdd"));
}

#[test]
fn generation_refuses_a_pair_that_cannot_be_split() {
    let mut scope = codegen::Scope::new();
    assert!(!try_generate(&mut scope, types_with_unusable_parts(), Types { structs: vec![], enums: vec![] }, &[&["SBad"]]));
    assert_eq!(scope.to_string(), codegen::Scope::new().to_string());
}

#[test]
fn generation_refuses_an_enum_of_an_invalid_size() {
    let mut scope = codegen::Scope::new();
    assert!(!try_generate(&mut scope, types_with_unusable_parts(), Types { structs: vec![], enums: vec![] }, &[&["enums"]]));
    assert_eq!(scope.to_string(), codegen::Scope::new().to_string());
}
