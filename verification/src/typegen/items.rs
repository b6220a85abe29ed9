//! The items written for the generated types, as plain texts: each structure with
//! its attributes, fields and registration line, and each enum with its variants,
//! representation, trait impls and registration line.
use vstd::prelude::*;
use crate::typegen::{RustEnum, RustField, RustStruct, RustVariant};
use crate::typegen::select::{Import, Step, selection};
use crate::typegen::emit::{
    FieldItem, field_annotations, field_item, field_item_type, joined, joined_text, size_type_names,
    size_types, submit, submit_line, valid_enum_size,
};
use crate::typegen::text::{
    chars_of, decimal, decimal_chars, has_prefix, signed_decimal, signed_decimal_chars,
    starts_with_text, string_of,
};

verus! {

/// The texts of a vector of strings.
pub open spec fn texts(v: Seq<String>) -> Seq<Seq<char>> {
    v.map_values(|s: String| s@)
}

/// A generated field, as texts: its name, its type and its attribute lines.
pub struct FieldText {
    pub name: Seq<char>,
    pub ty: Seq<char>,
    pub annotations: Seq<Seq<char>>,
}

/// The texts of a field item.
pub open spec fn field_text(f: FieldItem) -> FieldText {
    FieldText { name: f.name@, ty: f.ty@, annotations: texts(f.annotations@) }
}

/// The texts that a field is generated as.
pub open spec fn field_text_of(f: RustField) -> FieldText {
    FieldText { name: f.rust_name@, ty: field_item_type(f), annotations: field_annotations(f) }
}

/// A generated structure: its name, the attributes written above it (each as
/// `#[text]`), its fields and the line that registers it.
pub struct StructItem {
    pub name: String,
    pub attrs: Vec<String>,
    pub fields: Vec<FieldItem>,
    pub submit: String,
}

/// A generated structure, as texts.
pub struct StructText {
    pub name: Seq<char>,
    pub attrs: Seq<Seq<char>>,
    pub fields: Seq<FieldText>,
    pub submit: Seq<char>,
}

/// The texts of a structure item.
pub open spec fn struct_text(s: StructItem) -> StructText {
    StructText {
        name: s.name@,
        attrs: texts(s.attrs@),
        fields: s.fields@.map_values(|f: FieldItem| field_text(f)),
        submit: s.submit@,
    }
}

/// Whether one of the fields has a fixed array type.
pub open spec fn has_array_field_spec(fields: Seq<RustField>) -> bool {
    exists|j: int| 0 <= j < fields.len() && has_prefix(#[trigger] fields[j].ty@, "["@)
}

/// The attributes of a generated structure: its explicit alignment, `serde_as`
/// where a field is a fixed array, and the serde derives.
pub open spec fn struct_attrs(s: RustStruct) -> Seq<Seq<char>> {
    let aligned = match s.alignment {
        Some(n) => seq!["bin1(alignment = "@ + decimal(n as nat) + ")"@],
        None => Seq::empty(),
    };
    let arrays = if has_array_field_spec(s.fields@) {
        aligned.push("serde_as"@)
    } else {
        aligned
    };
    arrays.push("derive(serde::Serialize, serde::Deserialize)"@)
}

/// The texts that a structure is generated as.
pub open spec fn struct_text_of(s: RustStruct) -> StructText {
    StructText {
        name: s.rust_name@,
        attrs: struct_attrs(s),
        fields: s.fields@.map_values(|f: RustField| field_text_of(f)),
        submit: submit_line(s.rust_name@, s.type_id@),
    }
}

/// Whether one of the fields has a fixed array type.
fn has_array_field(fields: &Vec<RustField>) -> (r: bool)
    ensures
        r == has_array_field_spec(fields@),
{
    let mut j: usize = 0;
    while j < fields.len()
        invariant
            j <= fields@.len(),
            forall|k: int| 0 <= k < j ==> !has_prefix(#[trigger] fields@[k].ty@, "["@),
        decreases fields@.len() - j,
    {
        let ty = chars_of(fields[j].ty.as_str());
        if starts_with_text(ty.as_slice(), "[") {
            return true;
        }
        j = j + 1;
    }
    false
}

/// The item that a structure is generated as.
pub fn struct_item(s: &RustStruct) -> (r: StructItem)
    ensures
        struct_text(r) == struct_text_of(*s),
{
    let mut attrs: Vec<String> = Vec::new();
    match s.alignment {
        Some(alignment) => {
            let digits = decimal_chars(alignment as u64);
            let text = string_of(digits.as_slice());
            attrs.push(joined(&["bin1(alignment = ", text.as_str(), ")"]));
            proof {
                reveal_with_fuel(joined_text, 4);
            }
        },
        None => {},
    }
    if has_array_field(&s.fields) {
        attrs.push("serde_as".to_owned());
    }
    attrs.push("derive(serde::Serialize, serde::Deserialize)".to_owned());
    proof {
        assert(texts(attrs@) =~= struct_attrs(*s));
    }
    let mut fields: Vec<FieldItem> = Vec::new();
    let mut j: usize = 0;
    while j < s.fields.len()
        invariant
            j <= s.fields@.len(),
            fields@.map_values(|f: FieldItem| field_text(f)) == s.fields@.take(j as int).map_values(
                |f: RustField| field_text_of(f),
            ),
        decreases s.fields@.len() - j,
    {
        let item = field_item(&s.fields[j]);
        let ghost before = fields@;
        proof {
            assert(before.map_values(|f: FieldItem| field_text(f)).len() == before.len());
            assert(s.fields@.take(j as int).map_values(|f: RustField| field_text_of(f)).len() == j);
            assert(before.len() == j);
            assert(texts(item.annotations@) =~= field_annotations(s.fields@[j as int]));
            assert(field_text(item) == field_text_of(s.fields@[j as int]));
        }
        fields.push(item);
        proof {
            let lhs = fields@.map_values(|f: FieldItem| field_text(f));
            let rhs = s.fields@.take(j + 1).map_values(|f: RustField| field_text_of(f));
            assert(lhs.len() == rhs.len());
            assert forall|k: int| 0 <= k < lhs.len() implies lhs[k] == rhs[k] by {
                if k < j {
                    assert(fields@[k] == before[k]);
                    assert(before.map_values(|f: FieldItem| field_text(f))[k] == s.fields@.take(
                        j as int,
                    ).map_values(|f: RustField| field_text_of(f))[k]);
                }
            }
            assert(lhs =~= rhs);
        }
        j = j + 1;
    }
    proof {
        assert(s.fields@.take(s.fields@.len() as int) =~= s.fields@);
    }
    let submit_text = submit(s.rust_name.as_str(), s.type_id.as_str());
    let r = StructItem { name: s.rust_name.clone(), attrs, fields, submit: submit_text };
    proof {
        assert(struct_text(r).attrs =~= struct_text_of(*s).attrs);
        assert(struct_text(r).fields =~= struct_text_of(*s).fields);
    }
    r
}

/// Appending a string appends its text.
proof fn lemma_texts_push(v: Seq<String>, x: String)
    ensures
        texts(v.push(x)) == texts(v).push(x@),
{
    assert(texts(v.push(x)) =~= texts(v).push(x@));
}

/// The decimal digits of `n`.
fn decimal_string(n: usize) -> (r: String)
    ensures
        r@ == decimal(n as nat),
{
    let digits = decimal_chars(n as u64);
    string_of(digits.as_slice())
}

/// The decimal digits of `v`, after a minus sign where it is negative.
fn signed_string(v: i64) -> (r: String)
    ensures
        r@ == signed_decimal(v as int),
{
    let digits = signed_decimal_chars(v);
    string_of(digits.as_slice())
}

/// The attribute that gives a serde name.
pub open spec fn serde_rename(name: Seq<char>) -> Seq<char> {
    "#[serde(rename = \""@ + name + "\")]"@
}

/// The attribute that gives a facet name.
pub open spec fn facet_rename(name: Seq<char>) -> Seq<char> {
    "#[facet(rename = \""@ + name + "\")]"@
}

/// The serde and facet attributes that give the name `name`.
fn renames(name: &str) -> (r: Vec<String>)
    ensures
        texts(r@) == seq![serde_rename(name@), facet_rename(name@)],
{
    let mut r: Vec<String> = Vec::new();
    r.push(joined(&["#[serde(rename = \"", name, "\")]"]));
    r.push(joined(&["#[facet(rename = \"", name, "\")]"]));
    proof {
        reveal_with_fuel(joined_text, 4);
        assert(texts(r@) =~= seq![serde_rename(name@), facet_rename(name@)]);
    }
    r
}

/// A generated enum variant: its name and its attribute lines.
pub struct VariantItem {
    pub name: String,
    pub annotations: Vec<String>,
}

/// A generated enum variant, as texts.
pub struct VariantText {
    pub name: Seq<char>,
    pub annotations: Seq<Seq<char>>,
}

/// The texts of a variant item.
pub open spec fn variant_text(v: VariantItem) -> VariantText {
    VariantText { name: v.name@, annotations: texts(v.annotations@) }
}

/// The texts that a variant is generated as.
pub open spec fn variant_text_of(v: RustVariant) -> VariantText {
    VariantText {
        name: v.rust_name@,
        annotations: seq![serde_rename(v.variant_name@), facet_rename(v.variant_name@)],
    }
}

/// The texts that the variants `vals` are generated as.
pub open spec fn variants_text(vals: Seq<RustVariant>) -> Seq<VariantText>
    decreases vals.len(),
{
    if vals.len() == 0 {
        Seq::empty()
    } else {
        variants_text(vals.drop_last()).push(variant_text_of(vals.last()))
    }
}

/// The variants of a generated enum: one per variant of the enum, or a single
/// `Value` with the empty name for an enum without variants.
pub open spec fn enum_variants_text(e: RustEnum) -> Seq<VariantText> {
    if e.values@.len() == 0 {
        seq![VariantText { name: "Value"@, annotations: seq![serde_rename(""@), facet_rename(""@)] }]
    } else {
        variants_text(e.values@)
    }
}

/// A block of generated code: the text before it, its lines and the text after it.
pub struct BlockItem {
    pub before: String,
    pub lines: Vec<String>,
    pub after: Option<String>,
}

/// A block of generated code, as texts.
pub struct BlockText {
    pub before: Seq<char>,
    pub lines: Seq<Seq<char>>,
    pub after: Option<Seq<char>>,
}

/// The texts of a block item.
pub open spec fn block_text(b: BlockItem) -> BlockText {
    BlockText {
        before: b.before@,
        lines: texts(b.lines@),
        after: match b.after {
            Some(a) => Some(a@),
            None => None,
        },
    }
}

/// A generated function: its name, whether it takes `&self`, its other parameters
/// (name and type), its result type, its body's lines and a block after them.
pub struct FnItem {
    pub name: String,
    pub ref_self: bool,
    pub args: Vec<(String, String)>,
    pub ret: String,
    pub lines: Vec<String>,
    pub block: Option<BlockItem>,
}

/// A generated function, as texts.
pub struct FnText {
    pub name: Seq<char>,
    pub ref_self: bool,
    pub args: Seq<(Seq<char>, Seq<char>)>,
    pub ret: Seq<char>,
    pub lines: Seq<Seq<char>>,
    pub block: Option<BlockText>,
}

/// The texts of pairs of strings.
pub open spec fn pair_texts(v: Seq<(String, String)>) -> Seq<(Seq<char>, Seq<char>)> {
    v.map_values(|p: (String, String)| (p.0@, p.1@))
}

/// The texts of a function item.
pub open spec fn fn_text(f: FnItem) -> FnText {
    FnText {
        name: f.name@,
        ref_self: f.ref_self,
        args: pair_texts(f.args@),
        ret: f.ret@,
        lines: texts(f.lines@),
        block: match f.block {
            Some(b) => Some(block_text(b)),
            None => None,
        },
    }
}

/// A generated impl block: the type and the trait, the associated constants (name,
/// type and value), the associated types (name and type) and the functions.
pub struct ImplItem {
    pub target: String,
    pub trait_name: String,
    pub consts: Vec<(String, String, String)>,
    pub types: Vec<(String, String)>,
    pub fns: Vec<FnItem>,
}

/// A generated impl block, as texts.
pub struct ImplText {
    pub target: Seq<char>,
    pub trait_name: Seq<char>,
    pub consts: Seq<(Seq<char>, Seq<char>, Seq<char>)>,
    pub types: Seq<(Seq<char>, Seq<char>)>,
    pub fns: Seq<FnText>,
}

/// The texts of an impl item.
pub open spec fn impl_text(i: ImplItem) -> ImplText {
    ImplText {
        target: i.target@,
        trait_name: i.trait_name@,
        consts: i.consts@.map_values(|c: (String, String, String)| (c.0@, c.1@, c.2@)),
        types: pair_texts(i.types@),
        fns: i.fns@.map_values(|f: FnItem| fn_text(f)),
    }
}

/// A generated enum: its name, its variants, its representation, its impls and
/// the line that registers it.
pub struct EnumItem {
    pub name: String,
    pub variants: Vec<VariantItem>,
    pub repr: String,
    pub impls: Vec<ImplItem>,
    pub submit: String,
}

/// A generated enum, as texts.
pub struct EnumText {
    pub name: Seq<char>,
    pub variants: Seq<VariantText>,
    pub repr: Seq<char>,
    pub impls: Seq<ImplText>,
    pub submit: Seq<char>,
}

/// The texts of an enum item.
pub open spec fn enum_text(e: EnumItem) -> EnumText {
    EnumText {
        name: e.name@,
        variants: e.variants@.map_values(|v: VariantItem| variant_text(v)),
        repr: e.repr@,
        impls: e.impls@.map_values(|i: ImplItem| impl_text(i)),
        submit: e.submit@,
    }
}

/// The items of an enum's variants.
fn variant_items(e: &RustEnum) -> (r: Vec<VariantItem>)
    ensures
        r@.map_values(|v: VariantItem| variant_text(v)) == enum_variants_text(*e),
{
    let mut r: Vec<VariantItem> = Vec::new();
    if e.values.len() == 0 {
        r.push(VariantItem { name: "Value".to_owned(), annotations: renames("") });
        proof {
            assert(r@.map_values(|v: VariantItem| variant_text(v)) =~= enum_variants_text(*e));
        }
        return r;
    }
    let mut j: usize = 0;
    while j < e.values.len()
        invariant
            j <= e.values@.len(),
            r@.map_values(|v: VariantItem| variant_text(v)) == variants_text(e.values@.take(j as int)),
        decreases e.values@.len() - j,
    {
        let v = &e.values[j];
        let item = VariantItem { name: v.rust_name.clone(), annotations: renames(v.variant_name.as_str()) };
        let ghost before = r@;
        proof {
            assert(variant_text(item) == variant_text_of(e.values@[j as int]));
            assert(e.values@.take(j + 1).drop_last() =~= e.values@.take(j as int));
            assert(before.map_values(|v: VariantItem| variant_text(v)).push(variant_text(item))
                =~= before.push(item).map_values(|v: VariantItem| variant_text(v)));
        }
        r.push(item);
        j = j + 1;
    }
    proof {
        assert(e.values@.take(e.values@.len() as int) =~= e.values@);
    }
    r
}

/// The kinds of match arms written for an enum's variants.
#[derive(Clone, Copy)]
pub enum ArmKind {
    /// From the variant to its name.
    ToName,
    /// From a name to the variant.
    FromStr,
    /// From the variant to its integer.
    ToInt,
    /// From an integer to the variant.
    TryFrom,
}

/// The match arm of kind `kind` for the variant `v` of the enum named `name`.
pub open spec fn arm_line(kind: ArmKind, name: Seq<char>, v: RustVariant) -> Seq<char> {
    match kind {
        ArmKind::ToName => name + "::"@ + v.rust_name@ + " => \""@ + v.variant_name@ + "\","@,
        ArmKind::FromStr => "\""@ + v.variant_name@ + "\" => Self::"@ + v.rust_name@ + ","@,
        ArmKind::ToInt => name + "::"@ + v.rust_name@ + " => "@ + signed_decimal(v.value as int)
            + ","@,
        ArmKind::TryFrom => signed_decimal(v.value as int) + " => Self::"@ + v.rust_name@ + ","@,
    }
}

/// The match arms of kind `kind` for the variants `vals`, in order.
pub open spec fn arm_lines(kind: ArmKind, name: Seq<char>, vals: Seq<RustVariant>) -> Seq<Seq<char>>
    decreases vals.len(),
{
    if vals.len() == 0 {
        Seq::empty()
    } else {
        arm_lines(kind, name, vals.drop_last()).push(arm_line(kind, name, vals.last()))
    }
}

/// The match arm of kind `kind` for the variant `v` of the enum named `name`.
fn arm(kind: ArmKind, name: &str, v: &RustVariant) -> (r: String)
    ensures
        r@ == arm_line(kind, name@, *v),
{
    proof {
        reveal_with_fuel(joined_text, 7);
    }
    match kind {
        ArmKind::ToName => joined(
            &[name, "::", v.rust_name.as_str(), " => \"", v.variant_name.as_str(), "\","],
        ),
        ArmKind::FromStr => joined(
            &["\"", v.variant_name.as_str(), "\" => Self::", v.rust_name.as_str(), ","],
        ),
        ArmKind::ToInt => {
            let n = signed_string(v.value);
            joined(&[name, "::", v.rust_name.as_str(), " => ", n.as_str(), ","])
        },
        ArmKind::TryFrom => {
            let n = signed_string(v.value);
            joined(&[n.as_str(), " => Self::", v.rust_name.as_str(), ","])
        },
    }
}

/// The match arms of kind `kind` for the variants `vals`, in order.
fn arms(kind: ArmKind, name: &str, vals: &Vec<RustVariant>) -> (r: Vec<String>)
    ensures
        texts(r@) == arm_lines(kind, name@, vals@),
{
    let mut r: Vec<String> = Vec::new();
    let mut j: usize = 0;
    while j < vals.len()
        invariant
            j <= vals@.len(),
            texts(r@) == arm_lines(kind, name@, vals@.take(j as int)),
        decreases vals@.len() - j,
    {
        let line = arm(kind, name, &vals[j]);
        proof {
            lemma_texts_push(r@, line);
            assert(vals@.take(j + 1).drop_last() =~= vals@.take(j as int));
        }
        r.push(line);
        j = j + 1;
    }
    proof {
        assert(vals@.take(vals@.len() as int) =~= vals@);
    }
    r
}

/// The block that gives the name of a variant.
pub open spec fn to_name_block(e: RustEnum) -> BlockText {
    BlockText {
        before: "match value"@,
        lines: if e.values@.len() == 0 {
            seq![e.rust_name@ + "::Value => \"\""@]
        } else {
            arm_lines(ArmKind::ToName, e.rust_name@, e.values@)
        },
        after: None,
    }
}

/// The block that gives the variant of a name.
pub open spec fn from_str_block(e: RustEnum) -> BlockText {
    if e.values@.len() == 0 {
        BlockText {
            before: ""@,
            lines: seq!["value.is_empty().then_some(Self::Value).ok_or(())"@],
            after: None,
        }
    } else {
        BlockText {
            before: "Ok(match value"@,
            lines: arm_lines(ArmKind::FromStr, e.rust_name@, e.values@).push(
                "_ => return Err(())"@,
            ),
            after: Some(")"@),
        }
    }
}

/// The block that gives the integer of a variant.
pub open spec fn to_int_block(e: RustEnum) -> BlockText {
    BlockText {
        before: "match value"@,
        lines: if e.values@.len() == 0 {
            seq![e.rust_name@ + "::Value => 1"@]
        } else {
            arm_lines(ArmKind::ToInt, e.rust_name@, e.values@)
        },
        after: None,
    }
}

/// The block that gives the variant of an integer.
pub open spec fn try_from_block(e: RustEnum) -> BlockText {
    if e.values@.len() == 0 {
        BlockText {
            before: ""@,
            lines: seq![
                "if value != 1 { eprintln!(\"Unexpected value for uninhabited enum "@ + e.type_id@
                    + ": {}\", value); }"@,
                "Ok(Self::Value)"@,
            ],
            after: None,
        }
    } else {
        BlockText {
            before: "Ok(match value"@,
            lines: arm_lines(ArmKind::TryFrom, e.rust_name@, e.values@).push(
                "_ => return Err(())"@,
            ),
            after: Some(")"@),
        }
    }
}

/// A block of match arms: the arms of kind `kind`, or the line `single` for an
/// enum without variants; with `closing`, the catch-all arm is added and the
/// block is wrapped in `Ok(..)`.
fn arms_block(e: &RustEnum, kind: ArmKind, single: Vec<String>, empty_before: &str, closing: bool) -> (r: BlockItem)
    ensures
        e.values@.len() == 0 ==> block_text(r) == (BlockText {
            before: empty_before@,
            lines: texts(single@),
            after: None,
        }),
        e.values@.len() > 0 && closing ==> block_text(r) == (BlockText {
            before: "Ok(match value"@,
            lines: arm_lines(kind, e.rust_name@, e.values@).push("_ => return Err(())"@),
            after: Some(")"@),
        }),
        e.values@.len() > 0 && !closing ==> block_text(r) == (BlockText {
            before: "match value"@,
            lines: arm_lines(kind, e.rust_name@, e.values@),
            after: None,
        }),
{
    if e.values.len() == 0 {
        return BlockItem { before: empty_before.to_owned(), lines: single, after: None };
    }
    let mut lines = arms(kind, e.rust_name.as_str(), &e.values);
    if closing {
        let last = "_ => return Err(())".to_owned();
        proof {
            lemma_texts_push(lines@, last);
        }
        lines.push(last);
        BlockItem { before: "Ok(match value".to_owned(), lines, after: Some(")".to_owned()) }
    } else {
        BlockItem { before: "match value".to_owned(), lines, after: None }
    }
}

/// A single line.
fn one_line(line: String) -> (r: Vec<String>)
    ensures
        texts(r@) == seq![line@],
{
    let mut r: Vec<String> = Vec::new();
    r.push(line);
    proof {
        assert(texts(r@) =~= seq![line@]);
    }
    r
}

/// A function with one parameter whose body is a single block.
pub open spec fn block_fn(name: Seq<char>, arg: (Seq<char>, Seq<char>), ret: Seq<char>, block: BlockText) -> FnText {
    FnText { name, ref_self: false, args: seq![arg], ret, lines: Seq::empty(), block: Some(block) }
}

/// An impl block with associated types and a single function.
pub open spec fn single_fn_impl(
    target: Seq<char>,
    trait_name: Seq<char>,
    types: Seq<(Seq<char>, Seq<char>)>,
    f: FnText,
) -> ImplText {
    ImplText { target, trait_name, consts: Seq::empty(), types, fns: seq![f] }
}

/// The impl of `Aligned`: the alignment is the size.
pub open spec fn aligned_impl(e: RustEnum) -> ImplText {
    ImplText {
        target: e.rust_name@,
        trait_name: "Aligned"@,
        consts: seq![("ALIGNMENT"@, "usize"@, decimal(e.size as nat))],
        types: Seq::empty(),
        fns: Seq::empty(),
    }
}

/// The conversion from a variant to its name.
pub open spec fn to_name_impl(e: RustEnum) -> ImplText {
    single_fn_impl(
        "&'static str"@,
        "From<"@ + e.rust_name@ + ">"@,
        Seq::empty(),
        block_fn("from"@, ("value"@, e.rust_name@), "&'static str"@, to_name_block(e)),
    )
}

/// The parse of a variant from its name.
pub open spec fn from_str_impl(e: RustEnum) -> ImplText {
    single_fn_impl(
        e.rust_name@,
        "FromStr"@,
        seq![("Err"@, "()"@)],
        block_fn("from_str"@, ("value"@, "&str"@), "Result<Self, ()>"@, from_str_block(e)),
    )
}

/// The conversion from a variant to its integer, of the signed type of the size.
pub open spec fn to_int_impl(e: RustEnum) -> ImplText {
    let signed = size_types(e.size).1;
    single_fn_impl(
        signed,
        "From<"@ + e.rust_name@ + ">"@,
        Seq::empty(),
        block_fn("from"@, ("value"@, e.rust_name@), signed, to_int_block(e)),
    )
}

/// The conversion from an integer of the signed type of the size to a variant.
pub open spec fn try_from_impl(e: RustEnum) -> ImplText {
    let signed = size_types(e.size).1;
    single_fn_impl(
        e.rust_name@,
        "TryFrom<"@ + signed + ">"@,
        seq![("Error"@, "()"@)],
        block_fn("try_from"@, ("value"@, signed), "Result<Self, ()>"@, try_from_block(e)),
    )
}

/// The impl of `Bin1Serialize`: the integer written in little-endian order.
pub open spec fn serialize_impl(e: RustEnum) -> ImplText {
    let signed = size_types(e.size).1;
    ImplText {
        target: e.rust_name@,
        trait_name: "Bin1Serialize"@,
        consts: Seq::empty(),
        types: Seq::empty(),
        fns: seq![
            FnText {
                name: "alignment"@,
                ref_self: true,
                args: Seq::empty(),
                ret: "usize"@,
                lines: seq![decimal(e.size as nat)],
                block: None,
            },
            FnText {
                name: "write"@,
                ref_self: true,
                args: seq![("ser"@, "&mut Bin1Serializer"@)],
                ret: "Result<(), SerializeError>"@,
                lines: seq![
                    "ser.write_unaligned(&"@ + signed + "::from(*self).to_le_bytes());"@,
                    "Ok(())"@,
                ],
                block: None,
            },
        ],
    }
}

/// The impl of `Bin1Deserialize`: the integer read and converted to a variant.
pub open spec fn deserialize_impl(e: RustEnum) -> ImplText {
    let signed = size_types(e.size).1;
    ImplText {
        target: e.rust_name@,
        trait_name: "Bin1Deserialize"@,
        consts: seq![("SIZE"@, "usize"@, decimal(e.size as nat))],
        types: Seq::empty(),
        fns: seq![
            FnText {
                name: "read"@,
                ref_self: false,
                args: seq![("de"@, "&mut Bin1Deserializer"@)],
                ret: "Result<Self, DeserializeError>"@,
                lines: seq![
                    "let value = de.read_"@ + signed
                        + "()?;\nvalue.try_into().map_err(|_| DeserializeError::InvalidEnumValue(value as i64))"@,
                ],
                block: None,
            },
        ],
    }
}

/// The impls written for an enum, in order.
pub open spec fn enum_impls(e: RustEnum) -> Seq<ImplText> {
    seq![
        aligned_impl(e),
        to_name_impl(e),
        from_str_impl(e),
        to_int_impl(e),
        try_from_impl(e),
        serialize_impl(e),
        deserialize_impl(e),
    ]
}

/// A pair of strings.
fn pair(a: &str, b: &str) -> (r: (String, String))
    ensures
        r.0@ == a@,
        r.1@ == b@,
{
    (a.to_owned(), b.to_owned())
}

/// The pair `first`, where there is one, as a vector.
fn pairs_of(first: Option<(String, String)>) -> (r: Vec<(String, String)>)
    ensures
        pair_texts(r@) == match first {
            Some(p) => seq![(p.0@, p.1@)],
            None => Seq::<(Seq<char>, Seq<char>)>::empty(),
        },
{
    let mut r: Vec<(String, String)> = Vec::new();
    match first {
        Some(p) => r.push(p),
        None => {},
    }
    proof {
        assert(pair_texts(r@) =~= match first {
            Some(p) => seq![(p.0@, p.1@)],
            None => Seq::<(Seq<char>, Seq<char>)>::empty(),
        });
    }
    r
}

/// An impl block with associated types and a single function of one parameter
/// whose body is `block`.
fn block_fn_impl(
    target: String,
    trait_name: String,
    types: Vec<(String, String)>,
    fn_name: &str,
    arg: (String, String),
    ret: String,
    block: BlockItem,
) -> (r: ImplItem)
    ensures
        impl_text(r) == single_fn_impl(
            target@,
            trait_name@,
            pair_texts(types@),
            block_fn(fn_name@, (arg.0@, arg.1@), ret@, block_text(block)),
        ),
{
    let ghost arg_text = (arg.0@, arg.1@);
    let ghost block_t = block_text(block);
    let ghost ret_t = ret@;
    let args = pairs_of(Some(arg));
    let f = FnItem {
        name: fn_name.to_owned(),
        ref_self: false,
        args,
        ret,
        lines: Vec::new(),
        block: Some(block),
    };
    proof {
        assert(texts(f.lines@) =~= Seq::<Seq<char>>::empty());
        assert(fn_text(f) == block_fn(fn_name@, arg_text, ret_t, block_t));
    }
    let ghost ft = fn_text(f);
    let mut fns: Vec<FnItem> = Vec::new();
    fns.push(f);
    let r = ImplItem { target, trait_name, consts: Vec::new(), types, fns };
    proof {
        assert(impl_text(r).fns =~= seq![ft]);
        assert(impl_text(r).consts =~= Seq::<(Seq<char>, Seq<char>, Seq<char>)>::empty());
    }
    r
}

fn aligned_impl_item(e: &RustEnum) -> (r: ImplItem)
    ensures
        impl_text(r) == aligned_impl(*e),
{
    let mut consts: Vec<(String, String, String)> = Vec::new();
    consts.push(("ALIGNMENT".to_owned(), "usize".to_owned(), decimal_string(e.size)));
    let r = ImplItem {
        target: e.rust_name.clone(),
        trait_name: "Aligned".to_owned(),
        consts,
        types: Vec::new(),
        fns: Vec::new(),
    };
    proof {
        assert(impl_text(r).consts =~= aligned_impl(*e).consts);
        assert(impl_text(r).types =~= aligned_impl(*e).types);
        assert(impl_text(r).fns =~= aligned_impl(*e).fns);
    }
    r
}

fn to_name_impl_item(e: &RustEnum) -> (r: ImplItem)
    ensures
        impl_text(r) == to_name_impl(*e),
{
    let name = e.rust_name.as_str();
    proof {
        reveal_with_fuel(joined_text, 4);
    }
    let single = one_line(joined(&[name, "::Value => \"\""]));
    let block = arms_block(e, ArmKind::ToName, single, "match value", false);
    proof {
        assert(block_text(block) == to_name_block(*e));
    }
    block_fn_impl(
        "&'static str".to_owned(),
        joined(&["From<", name, ">"]),
        pairs_of(None),
        "from",
        pair("value", name),
        "&'static str".to_owned(),
        block,
    )
}

fn from_str_impl_item(e: &RustEnum) -> (r: ImplItem)
    ensures
        impl_text(r) == from_str_impl(*e),
{
    let single = one_line("value.is_empty().then_some(Self::Value).ok_or(())".to_owned());
    let block = arms_block(e, ArmKind::FromStr, single, "", true);
    proof {
        assert(block_text(block) == from_str_block(*e));
    }
    block_fn_impl(
        e.rust_name.clone(),
        "FromStr".to_owned(),
        pairs_of(Some(pair("Err", "()"))),
        "from_str",
        pair("value", "&str"),
        "Result<Self, ()>".to_owned(),
        block,
    )
}

fn to_int_impl_item(e: &RustEnum) -> (r: ImplItem)
    requires
        valid_enum_size(e.size),
    ensures
        impl_text(r) == to_int_impl(*e),
{
    let name = e.rust_name.as_str();
    let (_, signed) = size_type_names(e.size);
    proof {
        reveal_with_fuel(joined_text, 4);
    }
    let single = one_line(joined(&[name, "::Value => 1"]));
    let block = arms_block(e, ArmKind::ToInt, single, "match value", false);
    proof {
        assert(block_text(block) == to_int_block(*e));
    }
    block_fn_impl(
        signed.to_owned(),
        joined(&["From<", name, ">"]),
        pairs_of(None),
        "from",
        pair("value", name),
        signed.to_owned(),
        block,
    )
}

fn try_from_impl_item(e: &RustEnum) -> (r: ImplItem)
    requires
        valid_enum_size(e.size),
    ensures
        impl_text(r) == try_from_impl(*e),
{
    let (_, signed) = size_type_names(e.size);
    proof {
        reveal_with_fuel(joined_text, 4);
    }
    let warning = joined(
        &[
            "if value != 1 { eprintln!(\"Unexpected value for uninhabited enum ",
            e.type_id.as_str(),
            ": {}\", value); }",
        ],
    );
    let ok = "Ok(Self::Value)".to_owned();
    let mut single: Vec<String> = Vec::new();
    single.push(warning);
    single.push(ok);
    proof {
        assert(texts(single@) =~= seq![warning@, ok@]);
    }
    let block = arms_block(e, ArmKind::TryFrom, single, "", true);
    proof {
        assert(block_text(block) == try_from_block(*e));
    }
    block_fn_impl(
        e.rust_name.clone(),
        joined(&["TryFrom<", signed, ">"]),
        pairs_of(Some(pair("Error", "()"))),
        "try_from",
        pair("value", signed),
        "Result<Self, ()>".to_owned(),
        block,
    )
}

fn serialize_impl_item(e: &RustEnum) -> (r: ImplItem)
    requires
        valid_enum_size(e.size),
    ensures
        impl_text(r) == serialize_impl(*e),
{
    let (_, signed) = size_type_names(e.size);
    proof {
        reveal_with_fuel(joined_text, 4);
    }
    let alignment = FnItem {
        name: "alignment".to_owned(),
        ref_self: true,
        args: pairs_of(None),
        ret: "usize".to_owned(),
        lines: one_line(decimal_string(e.size)),
        block: None,
    };
    let write_line = joined(&["ser.write_unaligned(&", signed, "::from(*self).to_le_bytes());"]);
    let ok = "Ok(())".to_owned();
    let mut lines: Vec<String> = Vec::new();
    lines.push(write_line);
    lines.push(ok);
    proof {
        assert(texts(lines@) =~= seq![write_line@, ok@]);
    }
    let write = FnItem {
        name: "write".to_owned(),
        ref_self: true,
        args: pairs_of(Some(pair("ser", "&mut Bin1Serializer"))),
        ret: "Result<(), SerializeError>".to_owned(),
        lines,
        block: None,
    };
    let ghost fa = fn_text(alignment);
    let ghost fw = fn_text(write);
    proof {
        assert(fa == serialize_impl(*e).fns[0]);
        assert(fw == serialize_impl(*e).fns[1]);
    }
    let mut fns: Vec<FnItem> = Vec::new();
    fns.push(alignment);
    fns.push(write);
    let r = ImplItem {
        target: e.rust_name.clone(),
        trait_name: "Bin1Serialize".to_owned(),
        consts: Vec::new(),
        types: Vec::new(),
        fns,
    };
    proof {
        assert(impl_text(r).consts =~= serialize_impl(*e).consts);
        assert(impl_text(r).types =~= serialize_impl(*e).types);
        assert(impl_text(r).fns =~= serialize_impl(*e).fns);
    }
    r
}

fn deserialize_impl_item(e: &RustEnum) -> (r: ImplItem)
    requires
        valid_enum_size(e.size),
    ensures
        impl_text(r) == deserialize_impl(*e),
{
    let (_, signed) = size_type_names(e.size);
    proof {
        reveal_with_fuel(joined_text, 4);
    }
    let read_line = joined(
        &[
            "let value = de.read_",
            signed,
            "()?;\nvalue.try_into().map_err(|_| DeserializeError::InvalidEnumValue(value as i64))",
        ],
    );
    let read = FnItem {
        name: "read".to_owned(),
        ref_self: false,
        args: pairs_of(Some(pair("de", "&mut Bin1Deserializer"))),
        ret: "Result<Self, DeserializeError>".to_owned(),
        lines: one_line(read_line),
        block: None,
    };
    let ghost fr = fn_text(read);
    proof {
        assert(fr == deserialize_impl(*e).fns[0]);
    }
    let mut fns: Vec<FnItem> = Vec::new();
    fns.push(read);
    let mut consts: Vec<(String, String, String)> = Vec::new();
    consts.push(("SIZE".to_owned(), "usize".to_owned(), decimal_string(e.size)));
    let r = ImplItem {
        target: e.rust_name.clone(),
        trait_name: "Bin1Deserialize".to_owned(),
        consts,
        types: Vec::new(),
        fns,
    };
    proof {
        assert(impl_text(r).consts =~= deserialize_impl(*e).consts);
        assert(impl_text(r).types =~= deserialize_impl(*e).types);
        assert(impl_text(r).fns =~= deserialize_impl(*e).fns);
    }
    r
}

/// The texts that an enum is generated as.
pub open spec fn enum_text_of(e: RustEnum) -> EnumText {
    EnumText {
        name: e.rust_name@,
        variants: enum_variants_text(e),
        repr: size_types(e.size).0,
        impls: enum_impls(e),
        submit: submit_line(e.rust_name@, e.type_id@),
    }
}

/// The item that an enum is generated as.
pub fn enum_item(e: &RustEnum) -> (r: EnumItem)
    requires
        valid_enum_size(e.size),
    ensures
        enum_text(r) == enum_text_of(*e),
{
    let (repr, _) = size_type_names(e.size);
    let mut impls: Vec<ImplItem> = Vec::new();
    impls.push(aligned_impl_item(e));
    impls.push(to_name_impl_item(e));
    impls.push(from_str_impl_item(e));
    impls.push(to_int_impl_item(e));
    impls.push(try_from_impl_item(e));
    impls.push(serialize_impl_item(e));
    impls.push(deserialize_impl_item(e));
    let ghost expected = enum_impls(*e);
    proof {
        assert(impls@.map_values(|i: ImplItem| impl_text(i)) =~= expected);
    }
    let r = EnumItem {
        name: e.rust_name.clone(),
        variants: variant_items(e),
        repr: repr.to_owned(),
        impls,
        submit: submit(e.rust_name.as_str(), e.type_id.as_str()),
    };
    proof {
        assert(enum_text(r).impls =~= expected);
    }
    r
}

/// An item written into the scope: an import, a structure or an enum.
pub enum GenItem {
    Import(Import),
    Struct(StructItem),
    Enum(EnumItem),
}

/// An item written into the scope, as texts.
pub enum GenText {
    Import(Import),
    Struct(StructText),
    Enum(EnumText),
}

/// The texts of an item.
pub open spec fn gen_text(g: GenItem) -> GenText {
    match g {
        GenItem::Import(i) => GenText::Import(i),
        GenItem::Struct(s) => GenText::Struct(struct_text(s)),
        GenItem::Enum(e) => GenText::Enum(enum_text(e)),
    }
}

/// The texts that a step of the selection is generated as.
pub open spec fn step_text(st: Step) -> GenText {
    match st {
        Step::Import(i) => GenText::Import(i),
        Step::Struct(s) => GenText::Struct(struct_text_of(s)),
    }
}

/// The texts written for the types `roots`: the steps of the selection, then the
/// enums that it queued.
pub open spec fn generation_text(
    structs: Seq<RustStruct>,
    enums: Seq<RustEnum>,
    roots: Seq<Seq<char>>,
) -> Seq<GenText> {
    let sel = selection(structs, enums, roots);
    sel.steps.map_values(|st: Step| step_text(st)) + sel.enum_queue.map_values(
        |e: RustEnum| GenText::Enum(enum_text_of(e)),
    )
}

proof fn lemma_arm_lines_index(kind: ArmKind, name: Seq<char>, vals: Seq<RustVariant>)
    ensures
        arm_lines(kind, name, vals).len() == vals.len(),
        forall|i: int|
            0 <= i < vals.len() ==> #[trigger] arm_lines(kind, name, vals)[i] == arm_line(
                kind,
                name,
                vals[i],
            ),
    decreases vals.len(),
{
    if vals.len() > 0 {
        lemma_arm_lines_index(kind, name, vals.drop_last());
    }
}

/// The conversions generated for an enum with variants pair up, variant by variant
/// and in order: the arm that turns the `i`-th variant into its integer and the arm
/// that turns that integer back into the variant carry the same Rust name and the
/// same number, and the arm that turns the variant into its name and the arm that
/// turns that name back into the variant carry the same two names; the arms back to
/// the variant end with one that refuses every other integer or name.
pub proof fn lemma_conversion_arms(e: RustEnum, i: int)
    requires
        0 <= i < e.values@.len(),
    ensures
        to_int_block(e).lines.len() == e.values@.len(),
        try_from_block(e).lines.len() == e.values@.len() + 1,
        to_int_block(e).lines[i] == e.rust_name@ + "::"@ + e.values@[i].rust_name@ + " => "@
            + signed_decimal(e.values@[i].value as int) + ","@,
        try_from_block(e).lines[i] == signed_decimal(e.values@[i].value as int) + " => Self::"@
            + e.values@[i].rust_name@ + ","@,
        try_from_block(e).lines.last() == "_ => return Err(())"@,
        to_name_block(e).lines.len() == e.values@.len(),
        from_str_block(e).lines.len() == e.values@.len() + 1,
        to_name_block(e).lines[i] == e.rust_name@ + "::"@ + e.values@[i].rust_name@ + " => \""@
            + e.values@[i].variant_name@ + "\","@,
        from_str_block(e).lines[i] == "\""@ + e.values@[i].variant_name@ + "\" => Self::"@
            + e.values@[i].rust_name@ + ","@,
        from_str_block(e).lines.last() == "_ => return Err(())"@,
{
    lemma_arm_lines_index(ArmKind::ToInt, e.rust_name@, e.values@);
    lemma_arm_lines_index(ArmKind::TryFrom, e.rust_name@, e.values@);
    lemma_arm_lines_index(ArmKind::ToName, e.rust_name@, e.values@);
    lemma_arm_lines_index(ArmKind::FromStr, e.rust_name@, e.values@);
}

} // verus!
