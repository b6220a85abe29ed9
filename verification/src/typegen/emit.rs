//! The generated items: each selected structure and enum written into a
//! `codegen::Scope`, with the derives, attributes and trait impls that the core
//! crate needs.
use vstd::prelude::*;
use crate::typegen::{
    EnumDef, RustEnum, RustField, RustStruct, RustTypes, StructDef, Types, enum_converted,
    process_types, struct_converted, types_convertible,
};
use crate::typegen::names::{rust_type_name, type_rust_name};
use crate::typegen::pattern::{PTR_LEN_PARTS, match_one, one_group, regex_captures};
use crate::typegen::select::{
    Import, Step, drain_ok, has_special_structs, initial_selection, roots_of, select, selection,
    struct_index_from, use_roots, without_struct,
};
use crate::typegen::text::{
    chars_of, push_str, string_of, starts_with_text, has_prefix, is_text, decimal,
};
use crate::typegen::scope_model::{
    block_parts_of, enum_derives, enum_parts_of, fn_parts_of, impl_parts_of, scope_entries,
    struct_derives, struct_parts_of, field_parts_of, entries_of, imports_of,
    BlockParts, BodyPart, EnumParts, FieldParts, FnParts, ImplParts, ScopeItem, StructParts,
    before_path_sep, block_parts, enum_parts, field_parts, fn_parts, impl_parts, scope_imports,
    scope_items, struct_parts, variant_parts,
};
use crate::typegen::items::{
    VariantText, BlockItem, ImplText, block_text, fn_text, impl_text, struct_text, enum_text,
    field_text, variant_text, texts, pair_texts, EnumItem, FnItem, GenItem, GenText, ImplItem, StructItem, enum_item, enum_text_of,
    gen_text, generation_text, step_text, struct_item,
};

verus! {

#[verifier::external_type_specification]
#[verifier::external_body]
pub struct ExScope(::codegen::Scope);

#[verifier::external_type_specification]
#[verifier::external_body]
pub struct ExStruct(::codegen::Struct);

#[verifier::external_type_specification]
#[verifier::external_body]
pub struct ExField(::codegen::Field);

#[verifier::external_type_specification]
#[verifier::external_body]
pub struct ExEnum(::codegen::Enum);

#[verifier::external_type_specification]
#[verifier::external_body]
pub struct ExVariant(::codegen::Variant);

#[verifier::external_type_specification]
#[verifier::external_body]
pub struct ExImpl(::codegen::Impl);

#[verifier::external_type_specification]
#[verifier::external_body]
pub struct ExFunction(::codegen::Function);

#[verifier::external_type_specification]
#[verifier::external_body]
pub struct ExBlock(::codegen::Block);

/// `codegen::Scope::import`: records the path and the part of the name before its
/// first `::` among the scope's imports, once; the items are untouched. The order
/// in which imports are written is left unsaid.
#[verifier::external_body]
fn scope_import(scope: &mut ::codegen::Scope, path: &str, ty: &str)
    ensures
        scope_imports(*final(scope)) == scope_imports(*old(scope)).insert(
            (path@, before_path_sep(ty@)),
        ),
        scope_items(*final(scope)) == scope_items(*old(scope)),
{
    scope.import(path, ty);
}

/// `codegen::Scope::push_struct`: appends a structure to the scope's items.
#[verifier::external_body]
fn scope_push_struct(scope: &mut ::codegen::Scope, item: ::codegen::Struct)
    ensures
        scope_items(*final(scope)) == scope_items(*old(scope)).push(
            ScopeItem::Struct(struct_parts(item)),
        ),
        scope_imports(*final(scope)) == scope_imports(*old(scope)),
{
    scope.push_struct(item);
}

/// `codegen::Scope::push_enum`: appends an enum to the scope's items.
#[verifier::external_body]
fn scope_push_enum(scope: &mut ::codegen::Scope, item: ::codegen::Enum)
    ensures
        scope_items(*final(scope)) == scope_items(*old(scope)).push(
            ScopeItem::Enum(enum_parts(item)),
        ),
        scope_imports(*final(scope)) == scope_imports(*old(scope)),
{
    scope.push_enum(item);
}

/// `codegen::Scope::push_impl`: appends an impl block to the scope's items.
#[verifier::external_body]
fn scope_push_impl(scope: &mut ::codegen::Scope, item: ::codegen::Impl)
    ensures
        scope_items(*final(scope)) == scope_items(*old(scope)).push(
            ScopeItem::Impl(impl_parts(item)),
        ),
        scope_imports(*final(scope)) == scope_imports(*old(scope)),
{
    scope.push_impl(item);
}

/// `codegen::Scope::raw`: appends text to the scope's items, to be written as it is.
#[verifier::external_body]
fn scope_raw(scope: &mut ::codegen::Scope, text: String)
    ensures
        scope_items(*final(scope)) == scope_items(*old(scope)).push(ScopeItem::Raw(text@)),
        scope_imports(*final(scope)) == scope_imports(*old(scope)),
{
    scope.raw(text);
}

/// `codegen::Struct::new`: a structure with the name `name` and nothing else.
#[verifier::external_body]
fn struct_new(name: &str) -> (r: ::codegen::Struct)
    ensures
        struct_parts(r) == (StructParts {
            name: name@,
            vis: None,
            derives: Seq::empty(),
            attrs: Seq::empty(),
            fields: Seq::empty(),
            tuple_fields: false,
        }),
{
    ::codegen::Struct::new(name)
}

/// `codegen::Struct::derive`: adds a derive to the structure.
#[verifier::external_body]
fn struct_derive(item: &mut ::codegen::Struct, name: &str)
    ensures
        struct_parts(*final(item)) == (StructParts {
            derives: struct_parts(*old(item)).derives.push(name@),
            ..struct_parts(*old(item))
        }),
{
    item.derive(name);
}

/// `codegen::Struct::vis`: sets the structure's visibility.
#[verifier::external_body]
fn struct_vis(item: &mut ::codegen::Struct, vis: &str)
    ensures
        struct_parts(*final(item)) == (StructParts { vis: Some(vis@), ..struct_parts(*old(item)) }),
{
    item.vis(vis);
}

/// `codegen::Struct::attr`: adds an attribute, written `#[text]` above the structure.
#[verifier::external_body]
fn struct_attr(item: &mut ::codegen::Struct, text: &str)
    ensures
        struct_parts(*final(item)) == (StructParts {
            attrs: struct_parts(*old(item)).attrs.push(text@),
            ..struct_parts(*old(item))
        }),
{
    item.attr(text);
}

/// `codegen::Struct::push_field`: appends a named field to the structure. It panics
/// on a structure that has tuple fields, which `requires` leaves out.
#[verifier::external_body]
fn struct_push_field(item: &mut ::codegen::Struct, field: ::codegen::Field)
    requires
        !struct_parts(*old(item)).tuple_fields,
    ensures
        struct_parts(*final(item)) == (StructParts {
            fields: struct_parts(*old(item)).fields.push(field_parts(field)),
            ..struct_parts(*old(item))
        }),
{
    item.push_field(field);
}

/// `codegen::Field::new`: a field with a name and a type.
#[verifier::external_body]
fn field_new(name: &str, ty: &str) -> (r: ::codegen::Field)
    ensures
        field_parts(r) == (FieldParts {
            name: name@,
            ty: ty@,
            vis: None,
            annotations: Seq::empty(),
        }),
{
    ::codegen::Field::new(name, ty)
}

/// `codegen::Field::vis`: sets the field's visibility.
#[verifier::external_body]
fn field_vis(field: &mut ::codegen::Field, vis: &str)
    ensures
        field_parts(*final(field)) == (FieldParts { vis: Some(vis@), ..field_parts(*old(field)) }),
{
    field.vis(vis);
}

/// `codegen::Field::annotation`: adds an attribute line to the field.
#[verifier::external_body]
fn field_annotation(field: &mut ::codegen::Field, text: String)
    ensures
        field_parts(*final(field)) == (FieldParts {
            annotations: field_parts(*old(field)).annotations.push(text@),
            ..field_parts(*old(field))
        }),
{
    field.annotation(text);
}

/// `codegen::Enum::new`: an enum with the name `name` and nothing else.
#[verifier::external_body]
fn enum_new(name: &str) -> (r: ::codegen::Enum)
    ensures
        enum_parts(r) == (EnumParts {
            name: name@,
            vis: None,
            derives: Seq::empty(),
            repr: None,
            variants: Seq::empty(),
        }),
{
    ::codegen::Enum::new(name)
}

/// `codegen::Enum::derive`: adds a derive to the enum.
#[verifier::external_body]
fn enum_derive(item: &mut ::codegen::Enum, name: &str)
    ensures
        enum_parts(*final(item)) == (EnumParts {
            derives: enum_parts(*old(item)).derives.push(name@),
            ..enum_parts(*old(item))
        }),
{
    item.derive(name);
}

/// `codegen::Enum::vis`: sets the enum's visibility.
#[verifier::external_body]
fn enum_vis(item: &mut ::codegen::Enum, vis: &str)
    ensures
        enum_parts(*final(item)) == (EnumParts { vis: Some(vis@), ..enum_parts(*old(item)) }),
{
    item.vis(vis);
}

/// `codegen::Enum::repr`: sets the enum's representation.
#[verifier::external_body]
fn enum_repr(item: &mut ::codegen::Enum, repr: &str)
    ensures
        enum_parts(*final(item)) == (EnumParts { repr: Some(repr@), ..enum_parts(*old(item)) }),
{
    item.repr(repr);
}

/// `codegen::Enum::push_variant`: appends a variant to the enum.
#[verifier::external_body]
fn enum_push_variant(item: &mut ::codegen::Enum, variant: ::codegen::Variant)
    ensures
        enum_parts(*final(item)) == (EnumParts {
            variants: enum_parts(*old(item)).variants.push(variant_parts(variant)),
            ..enum_parts(*old(item))
        }),
{
    item.push_variant(variant);
}

/// `codegen::Variant::new`: a variant with the name `name`.
#[verifier::external_body]
fn variant_new(name: &str) -> (r: ::codegen::Variant)
    ensures
        variant_parts(r) == (VariantText { name: name@, annotations: Seq::empty() }),
{
    ::codegen::Variant::new(name)
}

/// `codegen::Variant::annotation`: adds an attribute line to the variant.
#[verifier::external_body]
fn variant_annotation(variant: &mut ::codegen::Variant, text: String)
    ensures
        variant_parts(*final(variant)) == (VariantText {
            annotations: variant_parts(*old(variant)).annotations.push(text@),
            ..variant_parts(*old(variant))
        }),
{
    variant.annotation(text);
}

/// `codegen::Impl::new`: an impl block for the type `target`.
#[verifier::external_body]
fn impl_new(target: &str) -> (r: ::codegen::Impl)
    ensures
        impl_parts(r) == (ImplParts {
            target: target@,
            trait_name: None,
            consts: Seq::empty(),
            types: Seq::empty(),
            fns: Seq::empty(),
        }),
{
    ::codegen::Impl::new(target)
}

/// `codegen::Impl::impl_trait`: makes the block an impl of the trait `ty`.
#[verifier::external_body]
fn impl_trait(item: &mut ::codegen::Impl, ty: &str)
    ensures
        impl_parts(*final(item)) == (ImplParts { trait_name: Some(ty@), ..impl_parts(*old(item)) }),
{
    item.impl_trait(ty);
}

/// `codegen::Impl::associate_const`: adds an associated constant to the block.
#[verifier::external_body]
fn impl_associate_const(item: &mut ::codegen::Impl, name: &str, ty: &str, value: String, vis: &str)
    ensures
        impl_parts(*final(item)) == (ImplParts {
            consts: impl_parts(*old(item)).consts.push((name@, ty@, value@, vis@)),
            ..impl_parts(*old(item))
        }),
{
    item.associate_const(name, ty, value, vis);
}

/// `codegen::Impl::associate_type`: adds an associated type to the block.
#[verifier::external_body]
fn impl_associate_type(item: &mut ::codegen::Impl, name: &str, ty: &str)
    ensures
        impl_parts(*final(item)) == (ImplParts {
            types: impl_parts(*old(item)).types.push((name@, ty@)),
            ..impl_parts(*old(item))
        }),
{
    item.associate_type(name, ty);
}

/// `codegen::Impl::push_fn`: appends a function to the block.
#[verifier::external_body]
fn impl_push_fn(item: &mut ::codegen::Impl, function: ::codegen::Function)
    ensures
        impl_parts(*final(item)) == (ImplParts {
            fns: impl_parts(*old(item)).fns.push(fn_parts(function)),
            ..impl_parts(*old(item))
        }),
{
    item.push_fn(function);
}

/// `codegen::Function::new`: a function with the name `name`, no parameters, no
/// result type and an empty body.
#[verifier::external_body]
fn function_new(name: &str) -> (r: ::codegen::Function)
    ensures
        fn_parts(r) == (FnParts {
            name: name@,
            self_arg: None,
            args: Seq::empty(),
            ret: None,
            body: Seq::empty(),
        }),
{
    ::codegen::Function::new(name)
}

/// `codegen::Function::arg`: adds a parameter to the function.
#[verifier::external_body]
fn function_arg(function: &mut ::codegen::Function, name: &str, ty: &str)
    ensures
        fn_parts(*final(function)) == (FnParts {
            args: fn_parts(*old(function)).args.push((name@, ty@)),
            ..fn_parts(*old(function))
        }),
{
    function.arg(name, ty);
}

/// `codegen::Function::arg_ref_self`: makes `&self` the function's `self` parameter.
#[verifier::external_body]
fn function_arg_ref_self(function: &mut ::codegen::Function)
    ensures
        fn_parts(*final(function)) == (FnParts {
            self_arg: Some("&self"@),
            ..fn_parts(*old(function))
        }),
{
    function.arg_ref_self();
}

/// `codegen::Function::ret`: sets the function's result type.
#[verifier::external_body]
fn function_ret(function: &mut ::codegen::Function, ty: &str)
    ensures
        fn_parts(*final(function)) == (FnParts { ret: Some(ty@), ..fn_parts(*old(function)) }),
{
    function.ret(ty);
}

/// `codegen::Function::line`: appends a line to the function's body.
#[verifier::external_body]
fn function_line(function: &mut ::codegen::Function, line: String)
    ensures
        fn_parts(*final(function)) == (FnParts {
            body: fn_parts(*old(function)).body.push(BodyPart::Line(line@)),
            ..fn_parts(*old(function))
        }),
{
    function.line(line);
}

/// `codegen::Function::push_block`: appends a block to the function's body.
#[verifier::external_body]
fn function_push_block(function: &mut ::codegen::Function, block: ::codegen::Block)
    ensures
        fn_parts(*final(function)) == (FnParts {
            body: fn_parts(*old(function)).body.push(BodyPart::Block(block_parts(block))),
            ..fn_parts(*old(function))
        }),
{
    function.push_block(block);
}

/// `codegen::Block::new`: an empty block written after the text `before`.
#[verifier::external_body]
fn block_new(before: &str) -> (r: ::codegen::Block)
    ensures
        block_parts(r) == (BlockParts { before: Some(before@), lines: Seq::empty(), after: None }),
{
    ::codegen::Block::new(before)
}

/// `codegen::Block::line`: appends a line to the block.
#[verifier::external_body]
fn block_line(block: &mut ::codegen::Block, line: String)
    ensures
        block_parts(*final(block)) == (BlockParts {
            lines: block_parts(*old(block)).lines.push(line@),
            ..block_parts(*old(block))
        }),
{
    block.line(line);
}

/// `codegen::Block::after`: sets the text written after the block.
#[verifier::external_body]
fn block_after(block: &mut ::codegen::Block, after: &str)
    ensures
        block_parts(*final(block)) == (BlockParts { after: Some(after@), ..block_parts(*old(block)) }),
{
    block.after(after);
}

/// What `regex::Regex::replace` returns for a pattern, a text and a replacement,
/// or `None` where `regex::Regex::new` refuses the pattern.
pub uninterp spec fn regex_replacement(pattern: Seq<char>, text: Seq<char>, rep: Seq<char>) -> Option<Seq<char>>;

/// Compiles `pattern` with `regex::Regex::new` and, where that succeeds, replaces its
/// first match in `text` with `rep` by `regex::Regex::replace`; the result is named
/// `regex_replacement`.
#[verifier::external_body]
fn regex_replace(pattern: &str, text: &str, rep: &str) -> (r: Option<String>)
    ensures
        r matches Some(s) ==> regex_replacement(pattern@, text@, rep@) == Some(s@),
        r is None ==> regex_replacement(pattern@, text@, rep@) is None,
{
    match lazy_regex::Regex::new(pattern) {
        Ok(re) => Some(re.replace(text, rep).into_owned()),
        Err(_) => None,
    }
}

/// The texts `parts` one after the other.
pub open spec fn joined_text(parts: Seq<Seq<char>>) -> Seq<char>
    decreases parts.len(),
{
    if parts.len() == 0 {
        Seq::empty()
    } else {
        joined_text(parts.drop_last()) + parts.last()
    }
}

/// Writes the texts `parts` one after the other.
pub fn joined(parts: &[&str]) -> (r: String)
    ensures
        r@ == joined_text(parts@.map_values(|p: &str| p@)),
{
    let mut s = String::new();
    let mut i: usize = 0;
    while i < parts.len()
        invariant
            i <= parts@.len(),
            s@ == joined_text(parts@.take(i as int).map_values(|p: &str| p@)),
        decreases parts@.len() - i,
    {
        push_str(&mut s, parts[i]);
        proof {
            let next = parts@.take(i + 1).map_values(|p: &str| p@);
            assert(next.drop_last() =~= parts@.take(i as int).map_values(|p: &str| p@));
        }
        i = i + 1;
    }
    assert(parts@.take(parts@.len() as int) =~= parts@);
    s
}

/// Whether `t` occurs in `s`.
pub open spec fn contains_text(s: Seq<char>, t: Seq<char>) -> bool {
    exists|i: int| 0 <= i && i + t.len() <= s.len() && #[trigger] s.subrange(i, i + t.len()) == t
}

fn contains(s: &[char], t: &str) -> (r: bool)
    ensures
        r == contains_text(s@, t@),
{
    let tc = chars_of(t);
    if tc.len() > s.len() {
        return false;
    }
    let mut i: usize = 0;
    while i <= s.len() - tc.len()
        invariant
            tc@ == t@,
            tc@.len() <= s@.len(),
            i <= s@.len() - tc@.len() + 1,
            forall|j: int| 0 <= j < i ==> #[trigger] s@.subrange(j, j + tc@.len()) != tc@,
        decreases s@.len() - tc@.len() + 1 - i,
    {
        if crate::typegen::text::matches_at(s, i, tc.as_slice()) {
            return true;
        }
        if i == s.len() - tc.len() {
            assert forall|j: int|
                0 <= j && j + t@.len() <= s@.len() implies #[trigger] s@.subrange(j, j + t@.len())
                != t@ by {
                assert(j <= i);
            }
            return false;
        }
        i = i + 1;
    }
    false
}

/// The path and the name of an import.
pub open spec fn import_target(i: Import) -> (Seq<char>, Seq<char>) {
    match i {
        Import::FromStr => ("std::str"@, "FromStr"@),
        Import::TResourcePtr => ("hitman_bin1_core::types::resource"@, "TResourcePtr"@),
        Import::TypeID => ("hitman_bin1_core::types::variant"@, "TypeID"@),
        Import::ZHMPtrLen => ("hitman_bin1_core::types::array"@, "ZHMPtrLen"@),
        Import::SerdeAs => ("serde_with"@, "serde_as"@),
    }
}

/// The path and the name of an import.
pub fn import_path(i: Import) -> (r: (&'static str, &'static str))
    ensures
        (r.0@, r.1@) == import_target(i),
{
    match i {
        Import::FromStr => ("std::str", "FromStr"),
        Import::TResourcePtr => ("hitman_bin1_core::types::resource", "TResourcePtr"),
        Import::TypeID => ("hitman_bin1_core::types::variant", "TypeID"),
        Import::ZHMPtrLen => ("hitman_bin1_core::types::array", "ZHMPtrLen"),
        Import::SerdeAs => ("serde_with", "serde_as"),
    }
}

/// A generated field: its Rust name, its type and the attributes that carry its
/// name in the descriptions, its array form, its opaque strings and its pointer and
/// length pair.
pub struct FieldItem {
    pub name: String,
    pub ty: String,
    pub annotations: Vec<String>,
}

/// The pattern that turns a fixed array's type into the form that `serde_as` takes.
pub const FIXED_ARRAY_PATTERN: &'static str = "\\[.*; (\\d+)\\]";

/// The annotations of a generated field, as texts.
pub open spec fn field_annotations(f: RustField) -> Seq<Seq<char>> {
    let base = seq![
        "#[serde(rename = \""@ + f.field_name@ + "\")]"@,
        "#[facet(rename = \""@ + f.field_name@ + "\")]"@,
    ];
    let arrays = if has_prefix(f.ty@, "["@) {
        let as_type = match regex_replacement(FIXED_ARRAY_PATTERN@, f.ty@, "[_; $1]"@) {
            Some(t) => t,
            None => f.ty@,
        };
        base.push("#[serde_as(as = \""@ + as_type + "\")]"@)
    } else {
        base
    };
    let opaque = if f.ty@ == "EcoString"@ {
        arrays.push("#[facet(opaque, proxy = String)]"@)
    } else if contains_text(f.ty@, "EcoString"@) {
        arrays.push("#[facet(opaque)]"@)
    } else {
        arrays
    };
    match one_group(regex_captures(PTR_LEN_PARTS@, f.ty@)) {
        Some(contained) => opaque.push("#[bin1(as = \"ZHMPtrLen::<"@ + contained + ">\")]"@),
        None => opaque,
    }
}

/// The type of a generated field: a pointer and length pair becomes a vector.
pub open spec fn field_item_type(f: RustField) -> Seq<char> {
    match one_group(regex_captures(PTR_LEN_PARTS@, f.ty@)) {
        Some(contained) => "Vec<"@ + contained + ">"@,
        None => f.ty@,
    }
}

/// The name, the type and the annotations of a generated field.
pub fn field_item(f: &RustField) -> (r: FieldItem)
    ensures
        r.name@ == f.rust_name@,
        r.ty@ == field_item_type(*f),
        r.annotations@.map_values(|a: String| a@) == field_annotations(*f),
{
    let ty = chars_of(f.ty.as_str());
    let mut annotations: Vec<String> = Vec::new();
    annotations.push(joined(&["#[serde(rename = \"", f.field_name.as_str(), "\")]"]));
    annotations.push(joined(&["#[facet(rename = \"", f.field_name.as_str(), "\")]"]));
    let ghost base = annotations@.map_values(|a: String| a@);
    proof {
        reveal_with_fuel(joined_text, 4);
        assert(base =~= seq![
            "#[serde(rename = \""@ + f.field_name@ + "\")]"@,
            "#[facet(rename = \""@ + f.field_name@ + "\")]"@,
        ]);
    }
    if starts_with_text(ty.as_slice(), "[") {
        let as_type = match regex_replace(FIXED_ARRAY_PATTERN, f.ty.as_str(), "[_; $1]") {
            Some(t) => t,
            None => f.ty.clone(),
        };
        annotations.push(joined(&["#[serde_as(as = \"", as_type.as_str(), "\")]"]));
        proof {
            reveal_with_fuel(joined_text, 4);
        }
    }
    let ghost arrays = annotations@.map_values(|a: String| a@);
    if is_text(ty.as_slice(), "EcoString") {
        annotations.push("#[facet(opaque, proxy = String)]".to_owned());
    } else if contains(ty.as_slice(), "EcoString") {
        annotations.push("#[facet(opaque)]".to_owned());
    }
    let ghost opaque = annotations@.map_values(|a: String| a@);
    let capture = match_one(PTR_LEN_PARTS, f.ty.as_str());
    let item_ty = match capture {
        Some(contained_text) => {
            annotations.push(
                joined(&["#[bin1(as = \"ZHMPtrLen::<", contained_text.as_str(), ">\")]"]),
            );
            proof {
                reveal_with_fuel(joined_text, 4);
            }
            joined(&["Vec<", contained_text.as_str(), ">"])
        },
        None => f.ty.clone(),
    };
    proof {
        reveal_with_fuel(joined_text, 4);
        assert(annotations@.map_values(|a: String| a@) =~= field_annotations(*f));
    }
    FieldItem { name: f.rust_name.clone(), ty: item_ty, annotations }
}

/// The line that registers a generated type under its type ID.
pub open spec fn submit_line(rust_name: Seq<char>, type_id: Seq<char>) -> Seq<char> {
    "submit!("@ + rust_name + ", \""@ + type_id + "\");"@
}

pub(crate) fn submit(rust_name: &str, type_id: &str) -> (r: String)
    ensures
        r@ == submit_line(rust_name@, type_id@),
{
    let r = joined(&["submit!(", rust_name, ", \"", type_id, "\");"]);
    proof {
        reveal_with_fuel(joined_text, 6);
    }
    r
}

/// Whether an enum's size is one of the sizes of its integer representation.
pub open spec fn valid_enum_size(size: usize) -> bool {
    size == 1 || size == 2 || size == 4 || size == 8
}

/// The unsigned and the signed integer types of an enum's size.
pub open spec fn size_types(size: usize) -> (Seq<char>, Seq<char>) {
    if size == 1 {
        ("u8"@, "i8"@)
    } else if size == 2 {
        ("u16"@, "i16"@)
    } else if size == 4 {
        ("u32"@, "i32"@)
    } else {
        ("u64"@, "i64"@)
    }
}

/// The integer types of an enum's representation are as wide as the enum: for a
/// size of `s` bytes, the unsigned and the signed integer types of `8 * s` bits.
pub proof fn lemma_size_types_have_the_size(size: usize)
    requires
        valid_enum_size(size),
    ensures
        size_types(size) == ("u"@ + decimal(8 * size as nat), "i"@ + decimal(8 * size as nat)),
{
    reveal_with_fuel(decimal, 3);
    reveal_strlit("u");
    reveal_strlit("i");
    reveal_strlit("u8");
    reveal_strlit("i8");
    reveal_strlit("u16");
    reveal_strlit("i16");
    reveal_strlit("u32");
    reveal_strlit("i32");
    reveal_strlit("u64");
    reveal_strlit("i64");
    let n = 8 * size as nat;
    if size == 1 {
        assert(decimal(n) =~= seq!['8']);
        assert("u"@ + decimal(n) =~= "u8"@);
        assert("i"@ + decimal(n) =~= "i8"@);
    } else if size == 2 {
        assert(decimal(1) =~= seq!['1']);
        assert(decimal(n) =~= seq!['1', '6']);
        assert("u"@ + decimal(n) =~= "u16"@);
        assert("i"@ + decimal(n) =~= "i16"@);
    } else if size == 4 {
        assert(decimal(3) =~= seq!['3']);
        assert(decimal(n) =~= seq!['3', '2']);
        assert("u"@ + decimal(n) =~= "u32"@);
        assert("i"@ + decimal(n) =~= "i32"@);
    } else {
        assert(decimal(6) =~= seq!['6']);
        assert(decimal(n) =~= seq!['6', '4']);
        assert("u"@ + decimal(n) =~= "u64"@);
        assert("i"@ + decimal(n) =~= "i64"@);
    }
}

/// The unsigned and the signed integer types of an enum's size.
pub fn size_type_names(size: usize) -> (r: (&'static str, &'static str))
    requires
        valid_enum_size(size),
    ensures
        (r.0@, r.1@) == size_types(size),
        r.0@ == "u"@ + decimal(8 * size as nat),
        r.1@ == "i"@ + decimal(8 * size as nat),
{
    proof {
        lemma_size_types_have_the_size(size);
    }
    if size == 1 {
        ("u8", "i8")
    } else if size == 2 {
        ("u16", "i16")
    } else if size == 4 {
        ("u32", "i32")
    } else {
        ("u64", "i64")
    }
}

/// `r` has the names, field types and size that the selection reads of `d`.
pub open spec fn struct_read(d: StructDef, r: RustStruct) -> bool {
    &&& r.type_id@ == d.name@
    &&& r.rust_name@ == type_rust_name(d.name@)
    &&& r.fields@.len() == d.fields@.len()
    &&& forall|j: int|
        0 <= j < d.fields@.len() ==> rust_type_name(#[trigger] d.fields@[j].ty@) == Some(
            r.fields@[j].ty@,
        )
}

/// `r` has the name and size that the selection reads of `d`.
pub open spec fn enum_read(d: EnumDef, r: RustEnum) -> bool {
    &&& r.rust_name@ == type_rust_name(d.name@)
    &&& r.size == d.size
}

/// `structs` and `enums` are the descriptions `types` followed by `custom`, as far
/// as the selection reads them.
pub open spec fn read_as(types: Types, custom: Types, structs: Seq<RustStruct>, enums: Seq<RustEnum>) -> bool {
    &&& structs.len() == types.structs@.len() + custom.structs@.len()
    &&& enums.len() == types.enums@.len() + custom.enums@.len()
    &&& forall|i: int|
        0 <= i < structs.len() ==> struct_read(
            (types.structs@ + custom.structs@)[i],
            #[trigger] structs[i],
        )
    &&& forall|i: int|
        0 <= i < enums.len() ==> enum_read((types.enums@ + custom.enums@)[i], #[trigger] enums[i])
}

/// Whether the descriptions `types` and `custom` hold a structure with the Rust name
/// `name`.
pub open spec fn describes_struct(types: Types, custom: Types, name: Seq<char>) -> bool {
    exists|i: int|
        0 <= i < types.structs@.len() + custom.structs@.len() && type_rust_name(
            (#[trigger] (types.structs@ + custom.structs@)[i]).name@,
        ) == name
}

/// Whether generation can go through for the names asked for `roots`: every
/// structure that it reaches has fields whose pair types can be taken apart, and
/// every enum that it generates has the size of an integer type.
pub open spec fn generation_ok(structs: Seq<RustStruct>, enums: Seq<RustEnum>, roots: Seq<Seq<char>>) -> bool {
    &&& drain_ok(use_roots(initial_selection(structs, enums), roots, 0))
    &&& forall|k: int|
        0 <= k < selection(structs, enums, roots).enum_queue.len() ==> valid_enum_size(
            #[trigger] selection(structs, enums, roots).enum_queue[k].size,
        )
}

proof fn lemma_index_found(s: Seq<RustStruct>, name: Seq<char>, i: int, at: int)
    requires
        0 <= i <= at < s.len(),
        s[at].rust_name@ == name,
    ensures
        i <= struct_index_from(s, name, false, i) <= at,
        s[struct_index_from(s, name, false, i)].rust_name@ == name,
    decreases at - i,
{
    if s[i].rust_name@ != name {
        lemma_index_found(s, name, i + 1, at);
    }
}

proof fn lemma_special_structs(s: Seq<RustStruct>, a: int, b: int)
    requires
        0 <= a < s.len(),
        0 <= b < s.len(),
        s[a].rust_name@ == "ZRuntimeResourceID"@,
        s[b].rust_name@ == "SEntityTemplateProperty"@,
    ensures
        has_special_structs(s),
{
    lemma_index_found(s, "ZRuntimeResourceID"@, 0, a);
    let i = struct_index_from(s, "ZRuntimeResourceID"@, false, 0);
    reveal_strlit("ZRuntimeResourceID");
    reveal_strlit("SEntityTemplateProperty");
    assert("ZRuntimeResourceID"@ != "SEntityTemplateProperty"@) by {
        assert("ZRuntimeResourceID"@.len() != "SEntityTemplateProperty"@.len());
    }
    let rest = without_struct(s, "ZRuntimeResourceID"@);
    let b2 = if b < i {
        b
    } else {
        b - 1
    };
    assert(b != i);
    assert(rest[b2] == s[b]);
    lemma_index_found(rest, "SEntityTemplateProperty"@, 0, b2);
}

/// The structures and enums of the descriptions `types` followed by `custom`, with
/// their Rust names.
pub open spec fn converted_all(
    types: Types,
    custom: Types,
    structs: Seq<RustStruct>,
    enums: Seq<RustEnum>,
) -> bool {
    &&& structs.len() == types.structs@.len() + custom.structs@.len()
    &&& enums.len() == types.enums@.len() + custom.enums@.len()
    &&& forall|i: int|
        0 <= i < structs.len() ==> struct_converted(
            (types.structs@ + custom.structs@)[i],
            #[trigger] structs[i],
        )
    &&& forall|i: int|
        0 <= i < enums.len() ==> enum_converted(
            (types.enums@ + custom.enums@)[i],
            #[trigger] enums[i],
        )
}

/// The descriptions `types` and `custom`, one after the other, with their Rust names
/// and types.
fn read_descriptions(types: Types, custom: Types) -> (r: (Vec<RustStruct>, Vec<RustEnum>))
    requires
        types_convertible(types),
        types_convertible(custom),
        describes_struct(types, custom, "ZRuntimeResourceID"@),
        describes_struct(types, custom, "SEntityTemplateProperty"@),
    ensures
        converted_all(types, custom, r.0@, r.1@),
        read_as(types, custom, r.0@, r.1@),
        has_special_structs(r.0@),
{
    let ghost described = types;
    let ghost described_custom = custom;
    let processed = process_types(types);
    let processed_custom = process_types(custom);
    let RustTypes { structs: mut structs, enums: mut enums } = processed;
    let RustTypes { structs: mut custom_structs, enums: mut custom_enums } = processed_custom;
    let ghost base_structs = structs@;
    let ghost base_enums = enums@;
    structs.append(&mut custom_structs);
    enums.append(&mut custom_enums);
    proof {
        let all = described.structs@ + described_custom.structs@;
        let all_enums = described.enums@ + described_custom.enums@;
        assert forall|i: int| 0 <= i < structs@.len() implies struct_converted(
            all[i],
            #[trigger] structs@[i],
        ) by {
            if i < base_structs.len() {
                assert(struct_converted(described.structs@[i], structs@[i]));
            } else {
                assert(struct_converted(
                    described_custom.structs@[i - base_structs.len()],
                    structs@[i],
                ));
            }
        }
        assert forall|i: int| 0 <= i < enums@.len() implies enum_converted(
            all_enums[i],
            #[trigger] enums@[i],
        ) by {
            if i < base_enums.len() {
                assert(enum_converted(described.enums@[i], enums@[i]));
            } else {
                assert(enum_converted(described_custom.enums@[i - base_enums.len()], enums@[i]));
            }
        }
        assert(converted_all(described, described_custom, structs@, enums@));
        assert forall|i: int| 0 <= i < structs@.len() implies struct_read(
            all[i],
            #[trigger] structs@[i],
        ) by {
            assert(struct_converted(all[i], structs@[i]));
            assert forall|j: int| 0 <= j < all[i].fields@.len() implies rust_type_name(
                #[trigger] all[i].fields@[j].ty@,
            ) == Some(structs@[i].fields@[j].ty@) by {
                assert(crate::typegen::field_converted(all[i].fields@[j], structs@[i].fields@[j]));
            }
        }
        assert forall|i: int| 0 <= i < enums@.len() implies enum_read(
            all_enums[i],
            #[trigger] enums@[i],
        ) by {
            assert(enum_converted(all_enums[i], enums@[i]));
        }
        assert(read_as(described, described_custom, structs@, enums@));
        let a = choose|i: int|
            0 <= i < all.len() && type_rust_name((#[trigger] all[i]).name@)
                == "ZRuntimeResourceID"@;
        let b = choose|i: int|
            0 <= i < all.len() && type_rust_name((#[trigger] all[i]).name@)
                == "SEntityTemplateProperty"@;
        assert(struct_read(all[a], structs@[a]));
        assert(struct_read(all[b], structs@[b]));
        lemma_special_structs(structs@, a, b);
    }
    (structs, enums)
}

/// The items for the steps of a selection, then for the enums that it queued.
fn items_of(steps: Vec<Step>, enum_queue: Vec<RustEnum>) -> (r: Vec<GenItem>)
    requires
        forall|k: int| 0 <= k < enum_queue@.len() ==> valid_enum_size(#[trigger] enum_queue@[k].size),
    ensures
        r@.map_values(|g: GenItem| gen_text(g)) == steps@.map_values(|st: Step| step_text(st))
            + enum_queue@.map_values(|e: RustEnum| GenText::Enum(enum_text_of(e))),
{
    let mut items: Vec<GenItem> = Vec::new();
    let mut i: usize = 0;
    while i < steps.len()
        invariant
            i <= steps@.len(),
            items@.map_values(|g: GenItem| gen_text(g)) == steps@.take(i as int).map_values(
                |st: Step| step_text(st),
            ),
        decreases steps@.len() - i,
    {
        let item = match &steps[i] {
            Step::Import(import) => GenItem::Import(*import),
            Step::Struct(s) => GenItem::Struct(struct_item(s)),
        };
        let ghost before = items@;
        proof {
            assert(gen_text(item) == step_text(steps@[i as int]));
            assert(before.map_values(|g: GenItem| gen_text(g)).len() == before.len());
            assert(steps@.take(i as int).map_values(|st: Step| step_text(st)).len() == i);
        }
        items.push(item);
        proof {
            let lhs = items@.map_values(|g: GenItem| gen_text(g));
            let rhs = steps@.take(i + 1).map_values(|st: Step| step_text(st));
            assert forall|k: int| 0 <= k < lhs.len() implies lhs[k] == rhs[k] by {
                if k < i {
                    assert(items@[k] == before[k]);
                    assert(before.map_values(|g: GenItem| gen_text(g))[k] == steps@.take(
                        i as int,
                    ).map_values(|st: Step| step_text(st))[k]);
                }
            }
            assert(lhs =~= rhs);
        }
        i = i + 1;
    }
    proof {
        assert(steps@.take(steps@.len() as int) =~= steps@);
    }
    let ghost step_items = items@;
    let mut k: usize = 0;
    while k < enum_queue.len()
        invariant
            k <= enum_queue@.len(),
            forall|j: int| 0 <= j < enum_queue@.len() ==> valid_enum_size(#[trigger] enum_queue@[j].size),
            items@.map_values(|g: GenItem| gen_text(g)) == steps@.map_values(
                |st: Step| step_text(st),
            ) + enum_queue@.take(k as int).map_values(|e: RustEnum| GenText::Enum(enum_text_of(e))),
        decreases enum_queue@.len() - k,
    {
        assert(valid_enum_size(enum_queue@[k as int].size));
        let item = GenItem::Enum(enum_item(&enum_queue[k]));
        let ghost before = items@;
        proof {
            assert(before.map_values(|g: GenItem| gen_text(g)).len() == before.len());
        }
        items.push(item);
        proof {
            let head = steps@.map_values(|st: Step| step_text(st));
            let lhs = items@.map_values(|g: GenItem| gen_text(g));
            let rhs = head + enum_queue@.take(k + 1).map_values(
                |e: RustEnum| GenText::Enum(enum_text_of(e)),
            );
            let prev = head + enum_queue@.take(k as int).map_values(
                |e: RustEnum| GenText::Enum(enum_text_of(e)),
            );
            assert(lhs.len() == rhs.len());
            assert forall|x: int| 0 <= x < lhs.len() implies lhs[x] == rhs[x] by {
                if x < before.len() {
                    assert(items@[x] == before[x]);
                    assert(before.map_values(|g: GenItem| gen_text(g))[x] == prev[x]);
                }
            }
            assert(lhs =~= rhs);
        }
        k = k + 1;
    }
    proof {
        assert(enum_queue@.take(enum_queue@.len() as int) =~= enum_queue@);
    }
    items
}

/// The items generated for the types asked for, in the order they are written: the
/// descriptions `types` and `custom` get their Rust names, every structure with a
/// type ID in `to_generate` is generated together with the structures, enums and
/// imports that its fields need, and `enums` in `to_generate` generates every enum.
pub fn generation_items(types: Types, custom: Types, to_generate: &[&[&str]]) -> (r: Vec<GenItem>)
    requires
        types_convertible(types),
        types_convertible(custom),
        describes_struct(types, custom, "ZRuntimeResourceID"@),
        describes_struct(types, custom, "SEntityTemplateProperty"@),
        forall|structs: Seq<RustStruct>, enums: Seq<RustEnum>|
            #[trigger] read_as(types, custom, structs, enums) ==> generation_ok(
                structs,
                enums,
                roots_of(to_generate@),
            ),
    ensures
        exists|structs: Seq<RustStruct>, enums: Seq<RustEnum>|
            #[trigger] converted_all(types, custom, structs, enums) && r@.map_values(
                |g: GenItem| gen_text(g),
            ) == generation_text(structs, enums, roots_of(to_generate@)),
{
    let (structs, enums) = read_descriptions(types, custom);
    let ghost all_structs = structs@;
    let ghost all_enums = enums@;
    let ghost roots = roots_of(to_generate@);
    assert(read_as(types, custom, all_structs, all_enums));
    assert(generation_ok(all_structs, all_enums, roots));
    match select(structs, enums, to_generate) {
        Some((steps, enum_queue)) => {
            assert(forall|k: int|
                0 <= k < enum_queue@.len() ==> valid_enum_size(#[trigger] enum_queue@[k].size));
            let items = items_of(steps, enum_queue);
            proof {
                assert(converted_all(types, custom, all_structs, all_enums));
            }
            items
        },
        None => {
            assert(false);
            Vec::new()
        },
    }
}

/// Builds a block of generated code.
fn block_of(b: &BlockItem) -> (r: ::codegen::Block)
    ensures
        block_parts(r) == block_parts_of(block_text(*b)),
{
    let mut block = block_new(b.before.as_str());
    let mut j: usize = 0;
    proof {
        assert(texts(b.lines@).take(0) =~= Seq::<Seq<char>>::empty());
    }
    while j < b.lines.len()
        invariant
            j <= b.lines@.len(),
            block_parts(block) == (BlockParts {
                before: Some(b.before@),
                lines: texts(b.lines@).take(j as int),
                after: None,
            }),
        decreases b.lines@.len() - j,
    {
        block_line(&mut block, b.lines[j].clone());
        proof {
            assert(texts(b.lines@).take(j + 1) =~= texts(b.lines@).take(j as int).push(
                b.lines@[j as int]@,
            ));
        }
        j = j + 1;
    }
    proof {
        assert(texts(b.lines@).take(j as int) =~= texts(b.lines@));
    }
    match &b.after {
        Some(after) => block_after(&mut block, after.as_str()),
        None => {},
    }
    block
}

/// Builds a generated function: its `self` parameter, its parameters, its result
/// type, its lines and then its block.
fn function_of(f: &FnItem) -> (r: ::codegen::Function)
    ensures
        fn_parts(r) == fn_parts_of(fn_text(*f)),
{
    let mut function = function_new(f.name.as_str());
    if f.ref_self {
        function_arg_ref_self(&mut function);
    }
    let ghost self_arg = fn_parts_of(fn_text(*f)).self_arg;
    let mut j: usize = 0;
    proof {
        assert(pair_texts(f.args@).take(0) =~= Seq::<(Seq<char>, Seq<char>)>::empty());
    }
    while j < f.args.len()
        invariant
            j <= f.args@.len(),
            fn_parts(function) == (FnParts {
                name: f.name@,
                self_arg: self_arg,
                args: pair_texts(f.args@).take(j as int),
                ret: None,
                body: Seq::empty(),
            }),
        decreases f.args@.len() - j,
    {
        function_arg(&mut function, f.args[j].0.as_str(), f.args[j].1.as_str());
        proof {
            assert(pair_texts(f.args@).take(j + 1) =~= pair_texts(f.args@).take(j as int).push(
                (f.args@[j as int].0@, f.args@[j as int].1@),
            ));
        }
        j = j + 1;
    }
    proof {
        assert(pair_texts(f.args@).take(j as int) =~= pair_texts(f.args@));
    }
    function_ret(&mut function, f.ret.as_str());
    let ghost lines = texts(f.lines@).map_values(|l: Seq<char>| BodyPart::Line(l));
    let mut j: usize = 0;
    proof {
        assert(lines.take(0) =~= Seq::<BodyPart>::empty());
    }
    while j < f.lines.len()
        invariant
            j <= f.lines@.len(),
            lines == texts(f.lines@).map_values(|l: Seq<char>| BodyPart::Line(l)),
            fn_parts(function) == (FnParts {
                name: f.name@,
                self_arg: self_arg,
                args: pair_texts(f.args@),
                ret: Some(f.ret@),
                body: lines.take(j as int),
            }),
        decreases f.lines@.len() - j,
    {
        function_line(&mut function, f.lines[j].clone());
        proof {
            assert(lines.take(j + 1) =~= lines.take(j as int).push(
                BodyPart::Line(f.lines@[j as int]@),
            ));
        }
        j = j + 1;
    }
    proof {
        assert(lines.take(j as int) =~= lines);
    }
    match &f.block {
        Some(b) => function_push_block(&mut function, block_of(b)),
        None => {},
    }
    proof {
        assert(fn_parts(function).body =~= fn_parts_of(fn_text(*f)).body);
    }
    function
}

/// Builds a generated impl block: its trait, constants, types and functions.
fn impl_of(i: &ImplItem) -> (r: ::codegen::Impl)
    ensures
        impl_parts(r) == impl_parts_of(impl_text(*i)),
{
    let ghost want = impl_parts_of(impl_text(*i));
    let mut item = impl_new(i.target.as_str());
    impl_trait(&mut item, i.trait_name.as_str());
    let mut j: usize = 0;
    proof {
        assert(want.consts.take(0) =~= Seq::<(Seq<char>, Seq<char>, Seq<char>, Seq<char>)>::empty());
    }
    while j < i.consts.len()
        invariant
            j <= i.consts@.len(),
            want == impl_parts_of(impl_text(*i)),
            impl_parts(item) == (ImplParts {
                target: want.target,
                trait_name: want.trait_name,
                consts: want.consts.take(j as int),
                types: Seq::empty(),
                fns: Seq::empty(),
            }),
        decreases i.consts@.len() - j,
    {
        let c = &i.consts[j];
        impl_associate_const(&mut item, c.0.as_str(), c.1.as_str(), c.2.clone(), "");
        proof {
            reveal_strlit("");
            assert(""@ =~= Seq::<char>::empty());
            assert(want.consts[j as int] == (c.0@, c.1@, c.2@, ""@));
            assert(want.consts.take(j + 1) =~= want.consts.take(j as int).push(
                (c.0@, c.1@, c.2@, ""@),
            ));
        }
        j = j + 1;
    }
    proof {
        assert(want.consts.take(j as int) =~= want.consts);
    }
    let mut j: usize = 0;
    proof {
        assert(want.types.take(0) =~= Seq::<(Seq<char>, Seq<char>)>::empty());
    }
    while j < i.types.len()
        invariant
            j <= i.types@.len(),
            want == impl_parts_of(impl_text(*i)),
            impl_parts(item) == (ImplParts {
                target: want.target,
                trait_name: want.trait_name,
                consts: want.consts,
                types: want.types.take(j as int),
                fns: Seq::empty(),
            }),
        decreases i.types@.len() - j,
    {
        impl_associate_type(&mut item, i.types[j].0.as_str(), i.types[j].1.as_str());
        proof {
            assert(want.types.take(j + 1) =~= want.types.take(j as int).push(
                (i.types@[j as int].0@, i.types@[j as int].1@),
            ));
        }
        j = j + 1;
    }
    proof {
        assert(want.types.take(j as int) =~= want.types);
    }
    let mut j: usize = 0;
    proof {
        assert(want.fns.take(0) =~= Seq::<FnParts>::empty());
    }
    while j < i.fns.len()
        invariant
            j <= i.fns@.len(),
            want == impl_parts_of(impl_text(*i)),
            impl_parts(item) == (ImplParts {
                target: want.target,
                trait_name: want.trait_name,
                consts: want.consts,
                types: want.types,
                fns: want.fns.take(j as int),
            }),
        decreases i.fns@.len() - j,
    {
        impl_push_fn(&mut item, function_of(&i.fns[j]));
        proof {
            assert(want.fns.take(j + 1) =~= want.fns.take(j as int).push(
                fn_parts_of(fn_text(i.fns@[j as int])),
            ));
        }
        j = j + 1;
    }
    proof {
        assert(want.fns.take(j as int) =~= want.fns);
    }
    item
}

/// Writes a structure item into the scope, public and with the derives that every
/// generated structure has, then the line that registers it.
fn emit_struct(scope: &mut ::codegen::Scope, s: &StructItem)
    ensures
        scope_items(*final(scope)) == scope_items(*old(scope)) + scope_entries(
            GenText::Struct(struct_text(*s)),
        ),
        scope_imports(*final(scope)) == scope_imports(*old(scope)),
{
    let ghost want = struct_parts_of(struct_text(*s));
    let mut cls = struct_new(s.name.as_str());
    struct_derive(&mut cls, "Facet");
    struct_derive(&mut cls, "Debug");
    struct_derive(&mut cls, "Clone");
    struct_derive(&mut cls, "PartialEq");
    struct_derive(&mut cls, "Bin1Serialize");
    struct_derive(&mut cls, "Bin1Deserialize");
    struct_vis(&mut cls, "pub");
    proof {
        assert(struct_parts(cls).derives =~= struct_derives());
    }
    let mut j: usize = 0;
    proof {
        assert(want.attrs.take(0) =~= Seq::<Seq<char>>::empty());
    }
    while j < s.attrs.len()
        invariant
            j <= s.attrs@.len(),
            want == struct_parts_of(struct_text(*s)),
            struct_parts(cls) == (StructParts {
                name: want.name,
                vis: want.vis,
                derives: want.derives,
                attrs: want.attrs.take(j as int),
                fields: Seq::empty(),
                tuple_fields: false,
            }),
        decreases s.attrs@.len() - j,
    {
        struct_attr(&mut cls, s.attrs[j].as_str());
        proof {
            assert(want.attrs.take(j + 1) =~= want.attrs.take(j as int).push(s.attrs@[j as int]@));
        }
        j = j + 1;
    }
    proof {
        assert(want.attrs.take(j as int) =~= want.attrs);
    }
    let mut j: usize = 0;
    proof {
        assert(want.fields.take(0) =~= Seq::<FieldParts>::empty());
    }
    while j < s.fields.len()
        invariant
            j <= s.fields@.len(),
            want == struct_parts_of(struct_text(*s)),
            struct_parts(cls) == (StructParts {
                name: want.name,
                vis: want.vis,
                derives: want.derives,
                attrs: want.attrs,
                fields: want.fields.take(j as int),
                tuple_fields: false,
            }),
        decreases s.fields@.len() - j,
    {
        let item = &s.fields[j];
        let ghost annotations = texts(item.annotations@);
        let mut field = field_new(item.name.as_str(), item.ty.as_str());
        field_vis(&mut field, "pub");
        let mut k: usize = 0;
        proof {
            assert(annotations.take(0) =~= Seq::<Seq<char>>::empty());
        }
        while k < item.annotations.len()
            invariant
                k <= item.annotations@.len(),
                annotations == texts(item.annotations@),
                field_parts(field) == (FieldParts {
                    name: item.name@,
                    ty: item.ty@,
                    vis: Some("pub"@),
                    annotations: annotations.take(k as int),
                }),
            decreases item.annotations@.len() - k,
        {
            field_annotation(&mut field, item.annotations[k].clone());
            proof {
                assert(annotations.take(k + 1) =~= annotations.take(k as int).push(
                    item.annotations@[k as int]@,
                ));
            }
            k = k + 1;
        }
        proof {
            assert(annotations.take(k as int) =~= annotations);
            assert(field_parts(field) == field_parts_of(field_text(*item)));
        }
        struct_push_field(&mut cls, field);
        proof {
            assert(want.fields.take(j + 1) =~= want.fields.take(j as int).push(
                field_parts_of(field_text(s.fields@[j as int])),
            ));
        }
        j = j + 1;
    }
    proof {
        assert(want.fields.take(j as int) =~= want.fields);
    }
    scope_push_struct(scope, cls);
    scope_raw(scope, s.submit.clone());
    proof {
        assert(scope_items(*scope) =~= scope_items(*old(scope)) + scope_entries(
            GenText::Struct(struct_text(*s)),
        ));
    }
}

/// Writes an enum item into the scope, public and with the derives that every
/// generated enum has, then its impls and the line that registers it.
fn emit_enum(scope: &mut ::codegen::Scope, e: &EnumItem)
    ensures
        scope_items(*final(scope)) == scope_items(*old(scope)) + scope_entries(
            GenText::Enum(enum_text(*e)),
        ),
        scope_imports(*final(scope)) == scope_imports(*old(scope)),
{
    let ghost want = enum_parts_of(enum_text(*e));
    let mut item = enum_new(e.name.as_str());
    enum_derive(&mut item, "Facet");
    enum_derive(&mut item, "Debug");
    enum_derive(&mut item, "Clone");
    enum_derive(&mut item, "Copy");
    enum_derive(&mut item, "PartialEq");
    enum_derive(&mut item, "Eq");
    enum_derive(&mut item, "PartialOrd");
    enum_derive(&mut item, "Ord");
    enum_derive(&mut item, "Hash");
    enum_derive(&mut item, "serde::Serialize");
    enum_derive(&mut item, "serde::Deserialize");
    enum_vis(&mut item, "pub");
    proof {
        assert(enum_parts(item).derives =~= enum_derives());
    }
    let mut j: usize = 0;
    proof {
        assert(want.variants.take(0) =~= Seq::<VariantText>::empty());
    }
    while j < e.variants.len()
        invariant
            j <= e.variants@.len(),
            want == enum_parts_of(enum_text(*e)),
            enum_parts(item) == (EnumParts {
                name: want.name,
                vis: want.vis,
                derives: want.derives,
                repr: None,
                variants: want.variants.take(j as int),
            }),
        decreases e.variants@.len() - j,
    {
        let value = &e.variants[j];
        let ghost annotations = texts(value.annotations@);
        let mut v = variant_new(value.name.as_str());
        let mut k: usize = 0;
        proof {
            assert(annotations.take(0) =~= Seq::<Seq<char>>::empty());
        }
        while k < value.annotations.len()
            invariant
                k <= value.annotations@.len(),
                annotations == texts(value.annotations@),
                variant_parts(v) == (VariantText {
                    name: value.name@,
                    annotations: annotations.take(k as int),
                }),
            decreases value.annotations@.len() - k,
        {
            variant_annotation(&mut v, value.annotations[k].clone());
            proof {
                assert(annotations.take(k + 1) =~= annotations.take(k as int).push(
                    value.annotations@[k as int]@,
                ));
            }
            k = k + 1;
        }
        proof {
            assert(annotations.take(k as int) =~= annotations);
        }
        enum_push_variant(&mut item, v);
        proof {
            assert(want.variants.take(j + 1) =~= want.variants.take(j as int).push(
                variant_text(e.variants@[j as int]),
            ));
        }
        j = j + 1;
    }
    proof {
        assert(want.variants.take(j as int) =~= want.variants);
    }
    enum_repr(&mut item, e.repr.as_str());
    scope_push_enum(scope, item);
    let ghost impls = enum_text(*e).impls.map_values(
        |i: ImplText| ScopeItem::Impl(impl_parts_of(i)),
    );
    let ghost start = scope_items(*old(scope)).push(ScopeItem::Enum(want));
    let mut j: usize = 0;
    proof {
        assert(impls.take(0) =~= Seq::<ScopeItem>::empty());
        assert(start + impls.take(0) =~= start);
    }
    while j < e.impls.len()
        invariant
            j <= e.impls@.len(),
            impls == enum_text(*e).impls.map_values(|i: ImplText| ScopeItem::Impl(impl_parts_of(i))),
            scope_items(*scope) == start + impls.take(j as int),
            scope_imports(*scope) == scope_imports(*old(scope)),
        decreases e.impls@.len() - j,
    {
        scope_push_impl(scope, impl_of(&e.impls[j]));
        proof {
            assert(impls.take(j + 1) =~= impls.take(j as int).push(
                ScopeItem::Impl(impl_parts_of(impl_text(e.impls@[j as int]))),
            ));
            assert(start + impls.take(j + 1) =~= (start + impls.take(j as int)).push(
                ScopeItem::Impl(impl_parts_of(impl_text(e.impls@[j as int]))),
            ));
        }
        j = j + 1;
    }
    proof {
        assert(impls.take(j as int) =~= impls);
    }
    scope_raw(scope, e.submit.clone());
    proof {
        assert(scope_items(*scope) =~= scope_items(*old(scope)) + scope_entries(
            GenText::Enum(enum_text(*e)),
        ));
    }
}

/// Writes the items `items` into `scope`, in order: each import added to its
/// imports, each structure and enum appended to its items.
fn emit_items(scope: &mut ::codegen::Scope, items: &Vec<GenItem>)
    ensures
        scope_items(*final(scope)) == scope_items(*old(scope)) + entries_of(
            items@.map_values(|g: GenItem| gen_text(g)),
        ),
        scope_imports(*final(scope)) == scope_imports(*old(scope)).union(
            imports_of(items@.map_values(|g: GenItem| gen_text(g))),
        ),
{
    let ghost start_items = scope_items(*scope);
    let ghost start_imports = scope_imports(*scope);
    let ghost gens = items@.map_values(|g: GenItem| gen_text(g));
    proof {
        assert(gens.take(0) =~= Seq::<GenText>::empty());
        assert(start_items + entries_of(gens.take(0)) =~= start_items);
        assert(start_imports.union(imports_of(gens.take(0))) =~= start_imports);
    }
    let mut i: usize = 0;
    while i < items.len()
        invariant
            i <= items@.len(),
            gens == items@.map_values(|g: GenItem| gen_text(g)),
            scope_items(*scope) == start_items + entries_of(gens.take(i as int)),
            scope_imports(*scope) == start_imports.union(imports_of(gens.take(i as int))),
        decreases items@.len() - i,
    {
        proof {
            assert(gens.take(i + 1).drop_last() =~= gens.take(i as int));
            assert(gens.take(i + 1).last() == gen_text(items@[i as int]));
        }
        match &items[i] {
            GenItem::Import(import) => {
                let (path, name) = import_path(*import);
                scope_import(scope, path, name);
                proof {
                    assert(scope_items(*scope) =~= start_items + entries_of(gens.take(i + 1)));
                    assert(scope_imports(*scope) =~= start_imports.union(
                        imports_of(gens.take(i + 1)),
                    ));
                }
            },
            GenItem::Struct(s) => {
                emit_struct(scope, s);
                proof {
                    assert(scope_items(*scope) =~= start_items + entries_of(gens.take(i + 1)));
                    assert(imports_of(gens.take(i + 1)) =~= imports_of(gens.take(i as int)));
                }
            },
            GenItem::Enum(e) => {
                emit_enum(scope, e);
                proof {
                    assert(scope_items(*scope) =~= start_items + entries_of(gens.take(i + 1)));
                    assert(imports_of(gens.take(i + 1)) =~= imports_of(gens.take(i as int)));
                }
            },
        }
        i = i + 1;
    }
    proof {
        assert(gens.take(i as int) =~= gens);
    }
}

/// Generates the Rust definitions of the types asked for into `scope`: the items of
/// `generation_items`, in order, each import added to the scope's imports and each
/// structure and enum appended to its items.
pub fn generate(scope: &mut ::codegen::Scope, types: Types, custom: Types, to_generate: &[&[&str]])
    requires
        types_convertible(types),
        types_convertible(custom),
        describes_struct(types, custom, "ZRuntimeResourceID"@),
        describes_struct(types, custom, "SEntityTemplateProperty"@),
        forall|structs: Seq<RustStruct>, enums: Seq<RustEnum>|
            #[trigger] read_as(types, custom, structs, enums) ==> generation_ok(
                structs,
                enums,
                roots_of(to_generate@),
            ),
    ensures
        exists|structs: Seq<RustStruct>, enums: Seq<RustEnum>|
            #[trigger] converted_all(types, custom, structs, enums) && scope_items(*final(scope))
                == scope_items(*old(scope)) + entries_of(
                generation_text(structs, enums, roots_of(to_generate@)),
            ) && scope_imports(*final(scope)) == scope_imports(*old(scope)).union(
                imports_of(generation_text(structs, enums, roots_of(to_generate@))),
            ),
{
    let items = generation_items(types, custom, to_generate);
    emit_items(scope, &items);
    proof {
        let (structs, enums) = choose|structs: Seq<RustStruct>, enums: Seq<RustEnum>|
            #[trigger] converted_all(types, custom, structs, enums) && items@.map_values(
                |g: GenItem| gen_text(g),
            ) == generation_text(structs, enums, roots_of(to_generate@));
        assert(converted_all(types, custom, structs, enums));
    }
}

/// Whether an enum size is that of an integer type.
fn is_valid_enum_size(size: usize) -> (r: bool)
    ensures
        r == valid_enum_size(size),
{
    size == 1 || size == 2 || size == 4 || size == 8
}

/// Generates into `scope`, as `generate` does, the Rust definitions of the types
/// asked for, where that generation can go through, and returns `true`; returns
/// `false`, leaving `scope` as it was, where a structure that it reaches has a pair
/// field type that cannot be taken apart or an enum that it generates has a size
/// that is not that of an integer type.
pub fn try_generate(
    scope: &mut ::codegen::Scope,
    types: Types,
    custom: Types,
    to_generate: &[&[&str]],
) -> (r: bool)
    requires
        types_convertible(types),
        types_convertible(custom),
        describes_struct(types, custom, "ZRuntimeResourceID"@),
        describes_struct(types, custom, "SEntityTemplateProperty"@),
    ensures
        exists|structs: Seq<RustStruct>, enums: Seq<RustEnum>|
            #[trigger] converted_all(types, custom, structs, enums) && (r == generation_ok(
                structs,
                enums,
                roots_of(to_generate@),
            )) && (r ==> scope_items(*final(scope)) == scope_items(*old(scope)) + entries_of(
                generation_text(structs, enums, roots_of(to_generate@)),
            ) && scope_imports(*final(scope)) == scope_imports(*old(scope)).union(
                imports_of(generation_text(structs, enums, roots_of(to_generate@))),
            )) && (!r ==> *final(scope) == *old(scope)),
{
    let (structs, enums) = read_descriptions(types, custom);
    let ghost all_structs = structs@;
    let ghost all_enums = enums@;
    let ghost roots = roots_of(to_generate@);
    match select(structs, enums, to_generate) {
        None => {
            proof {
                assert(!generation_ok(all_structs, all_enums, roots));
                assert(converted_all(types, custom, all_structs, all_enums));
            }
            false
        },
        Some((steps, enum_queue)) => {
            let mut k: usize = 0;
            while k < enum_queue.len()
                invariant
                    k <= enum_queue@.len(),
                    enum_queue@ == selection(all_structs, all_enums, roots).enum_queue,
                    forall|j: int| 0 <= j < k ==> valid_enum_size(#[trigger] enum_queue@[j].size),
                    converted_all(types, custom, all_structs, all_enums),
                    *scope == *old(scope),
                    roots == roots_of(to_generate@),
                decreases enum_queue@.len() - k,
            {
                if !is_valid_enum_size(enum_queue[k].size) {
                    proof {
                        assert(!valid_enum_size(selection(all_structs, all_enums, roots).enum_queue[k as int].size));
                        assert(!generation_ok(all_structs, all_enums, roots));
                        assert(converted_all(types, custom, all_structs, all_enums));
                    }
                    return false;
                }
                k = k + 1;
            }
            let items = items_of(steps, enum_queue);
            emit_items(scope, &items);
            proof {
                assert(generation_ok(all_structs, all_enums, roots));
                assert(converted_all(types, custom, all_structs, all_enums));
            }
            true
        },
    }
}

} // verus!
