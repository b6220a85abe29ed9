//! What the `codegen` builders hold, as texts: a scope's items and imports, and
//! the structures, enums, impl blocks, functions and blocks that are written into
//! it. The names below stand for the contents of each builder; the wrappers in
//! `emit` say how each builder call changes them.
use vstd::prelude::*;
use crate::typegen::items::{
    BlockText, EnumText, FieldText, FnText, GenText, ImplText, StructText, VariantText,
};
use crate::typegen::emit::import_target;

verus! {

/// A field of a `codegen::Struct`: its name, its type, its visibility and its
/// attribute lines.
pub struct FieldParts {
    pub name: Seq<char>,
    pub ty: Seq<char>,
    pub vis: Option<Seq<char>>,
    pub annotations: Seq<Seq<char>>,
}

/// A `codegen::Struct`: its name, visibility, derives, attributes and named fields,
/// and whether its fields are tuple fields, to which no named field can be added.
pub struct StructParts {
    pub name: Seq<char>,
    pub vis: Option<Seq<char>>,
    pub derives: Seq<Seq<char>>,
    pub attrs: Seq<Seq<char>>,
    pub fields: Seq<FieldParts>,
    pub tuple_fields: bool,
}

/// A `codegen::Enum`: its name, visibility, derives, representation and variants.
pub struct EnumParts {
    pub name: Seq<char>,
    pub vis: Option<Seq<char>>,
    pub derives: Seq<Seq<char>>,
    pub repr: Option<Seq<char>>,
    pub variants: Seq<VariantText>,
}

/// A `codegen::Block`: the text before it, its lines and the text after it.
pub struct BlockParts {
    pub before: Option<Seq<char>>,
    pub lines: Seq<Seq<char>>,
    pub after: Option<Seq<char>>,
}

/// An entry of a function's body: a line or a block.
pub enum BodyPart {
    Line(Seq<char>),
    Block(BlockParts),
}

/// A `codegen::Function`: its name, its `self` parameter, its other parameters
/// (name and type), its result type and its body.
pub struct FnParts {
    pub name: Seq<char>,
    pub self_arg: Option<Seq<char>>,
    pub args: Seq<(Seq<char>, Seq<char>)>,
    pub ret: Option<Seq<char>>,
    pub body: Seq<BodyPart>,
}

/// A `codegen::Impl`: its target, its trait, its associated constants (name, type,
/// value, visibility), its associated types (name and type) and its functions.
pub struct ImplParts {
    pub target: Seq<char>,
    pub trait_name: Option<Seq<char>>,
    pub consts: Seq<(Seq<char>, Seq<char>, Seq<char>, Seq<char>)>,
    pub types: Seq<(Seq<char>, Seq<char>)>,
    pub fns: Seq<FnParts>,
}

/// An item of a `codegen::Scope`.
pub enum ScopeItem {
    Struct(StructParts),
    Enum(EnumParts),
    Impl(ImplParts),
    Raw(Seq<char>),
}

/// The items of a scope, in the order they were pushed.
pub uninterp spec fn scope_items(s: ::codegen::Scope) -> Seq<ScopeItem>;

/// The imports of a scope, each as its path and its name.
pub uninterp spec fn scope_imports(s: ::codegen::Scope) -> Set<(Seq<char>, Seq<char>)>;

/// What a structure builder holds.
pub uninterp spec fn struct_parts(s: ::codegen::Struct) -> StructParts;

/// What a field builder holds.
pub uninterp spec fn field_parts(f: ::codegen::Field) -> FieldParts;

/// What an enum builder holds.
pub uninterp spec fn enum_parts(e: ::codegen::Enum) -> EnumParts;

/// What a variant builder holds: its name and its attribute lines.
pub uninterp spec fn variant_parts(v: ::codegen::Variant) -> VariantText;

/// What an impl builder holds.
pub uninterp spec fn impl_parts(i: ::codegen::Impl) -> ImplParts;

/// What a function builder holds.
pub uninterp spec fn fn_parts(f: ::codegen::Function) -> FnParts;

/// What a block builder holds.
pub uninterp spec fn block_parts(b: ::codegen::Block) -> BlockParts;

/// The part of a name before its first `::`, which is what `Scope::import` records.
pub open spec fn before_path_sep(t: Seq<char>) -> Seq<char>
    decreases t.len(),
{
    if t.len() < 2 {
        t
    } else if t[0] == ':' && t[1] == ':' {
        Seq::empty()
    } else {
        seq![t[0]] + before_path_sep(t.drop_first())
    }
}

/// The derives of every generated structure.
pub open spec fn struct_derives() -> Seq<Seq<char>> {
    seq!["Facet"@, "Debug"@, "Clone"@, "PartialEq"@, "Bin1Serialize"@, "Bin1Deserialize"@]
}

/// The derives of every generated enum.
pub open spec fn enum_derives() -> Seq<Seq<char>> {
    seq![
        "Facet"@,
        "Debug"@,
        "Clone"@,
        "Copy"@,
        "PartialEq"@,
        "Eq"@,
        "PartialOrd"@,
        "Ord"@,
        "Hash"@,
        "serde::Serialize"@,
        "serde::Deserialize"@,
    ]
}

/// A generated field as the builder holds it: public.
pub open spec fn field_parts_of(f: FieldText) -> FieldParts {
    FieldParts { name: f.name, ty: f.ty, vis: Some("pub"@), annotations: f.annotations }
}

/// A generated structure as the builder holds it: public, with the derives of
/// every generated structure.
pub open spec fn struct_parts_of(s: StructText) -> StructParts {
    StructParts {
        name: s.name,
        vis: Some("pub"@),
        derives: struct_derives(),
        attrs: s.attrs,
        fields: s.fields.map_values(|f: FieldText| field_parts_of(f)),
        tuple_fields: false,
    }
}

/// A generated enum as the builder holds it: public, with the derives of every
/// generated enum.
pub open spec fn enum_parts_of(e: EnumText) -> EnumParts {
    EnumParts {
        name: e.name,
        vis: Some("pub"@),
        derives: enum_derives(),
        repr: Some(e.repr),
        variants: e.variants,
    }
}

/// A generated block as the builder holds it.
pub open spec fn block_parts_of(b: BlockText) -> BlockParts {
    BlockParts { before: Some(b.before), lines: b.lines, after: b.after }
}

/// A generated function as the builder holds it: its lines, then its block.
pub open spec fn fn_parts_of(f: FnText) -> FnParts {
    FnParts {
        name: f.name,
        self_arg: if f.ref_self {
            Some("&self"@)
        } else {
            None
        },
        args: f.args,
        ret: Some(f.ret),
        body: f.lines.map_values(|l: Seq<char>| BodyPart::Line(l)) + match f.block {
            Some(b) => seq![BodyPart::Block(block_parts_of(b))],
            None => Seq::empty(),
        },
    }
}

/// A generated impl block as the builder holds it; its constants have the empty
/// visibility.
pub open spec fn impl_parts_of(i: ImplText) -> ImplParts {
    ImplParts {
        target: i.target,
        trait_name: Some(i.trait_name),
        consts: i.consts.map_values(
            |c: (Seq<char>, Seq<char>, Seq<char>)| (c.0, c.1, c.2, Seq::<char>::empty()),
        ),
        types: i.types,
        fns: i.fns.map_values(|f: FnText| fn_parts_of(f)),
    }
}

/// The scope items that a generated item is written as: a structure and the line
/// that registers it; an enum, its impls and the line that registers it; nothing
/// for an import.
pub open spec fn scope_entries(g: GenText) -> Seq<ScopeItem> {
    match g {
        GenText::Import(_) => Seq::empty(),
        GenText::Struct(s) => seq![ScopeItem::Struct(struct_parts_of(s)), ScopeItem::Raw(s.submit)],
        GenText::Enum(e) => seq![ScopeItem::Enum(enum_parts_of(e))] + e.impls.map_values(
            |i: ImplText| ScopeItem::Impl(impl_parts_of(i)),
        ) + seq![ScopeItem::Raw(e.submit)],
    }
}

/// The scope items that the generated items `gs` are written as, in order.
pub open spec fn entries_of(gs: Seq<GenText>) -> Seq<ScopeItem>
    decreases gs.len(),
{
    if gs.len() == 0 {
        Seq::empty()
    } else {
        entries_of(gs.drop_last()) + scope_entries(gs.last())
    }
}

/// The imports that the generated items `gs` add to a scope.
pub open spec fn imports_of(gs: Seq<GenText>) -> Set<(Seq<char>, Seq<char>)>
    decreases gs.len(),
{
    if gs.len() == 0 {
        Set::empty()
    } else {
        imports_of(gs.drop_last()).union(
            match gs.last() {
                GenText::Import(i) => set![(import_target(i).0, before_path_sep(import_target(i).1))],
                _ => Set::empty(),
            },
        )
    }
}

} // verus!
