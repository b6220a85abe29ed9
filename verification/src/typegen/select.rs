//! Which types are generated, and in what order: the types asked for, then the
//! types that their fields use, each structure once, with the imports that the
//! generated code needs.
use vstd::prelude::*;
use vstd::multiset::Multiset;
use crate::typegen::{RustEnum, RustField, RustStruct, RustTypes};
use crate::typegen::text::{
    chars_eq, chars_of, has_prefix, is_text, split_once, starts_with_text, trim_end_chars,
    trim_end_text, trim_start_chars, trim_start_text, trim_chars, trim_ws, find_char,
};

verus! {

/// An import that the generated code needs.
#[derive(Debug, Clone, Copy, PartialEq, Eq, Structural)]
pub enum Import {
    /// `std::str::FromStr`, for enums.
    FromStr,
    /// `TResourcePtr` of the core crate.
    TResourcePtr,
    /// `TypeID` of the core crate.
    TypeID,
    /// `ZHMPtrLen` of the core crate.
    ZHMPtrLen,
    /// `serde_with::serde_as`, for fixed arrays.
    SerdeAs,
}

/// One step of the generated code: an import or a structure.
pub enum Step {
    Import(Import),
    Struct(RustStruct),
}

/// The state of the selection: the structures not taken yet, the enums not taken
/// yet, the structures waiting to be generated, the steps so far and the enums to
/// generate after the structures.
#[verifier::ext_equal]
pub struct Selection {
    pub remaining: Seq<RustStruct>,
    pub enums: Seq<RustEnum>,
    pub queue: Seq<RustStruct>,
    pub steps: Seq<Step>,
    pub enum_queue: Seq<RustEnum>,
}

/// The number of types known to be stored in variants.
pub const KNOWN_VARIANT_COUNT: usize = 35;

/// The type IDs of the structures known to be stored in variants.
pub open spec fn known_variant_id(k: int) -> Seq<char> {
    if k == 0 {
        "SColorRGB"@
    } else if k == 1 {
        "SColorRGBA"@
    } else if k == 2 {
        "ZGuid"@
    } else if k == 3 {
        "ZGameTime"@
    } else if k == 4 {
        "SVector2"@
    } else if k == 5 {
        "SVector3"@
    } else if k == 6 {
        "SVector4"@
    } else if k == 7 {
        "SMatrix43"@
    } else if k == 8 {
        "SWorldSpaceSettings"@
    } else if k == 9 {
        "S25DProjectionSettings"@
    } else if k == 10 {
        "SBodyPartDamageMultipliers"@
    } else if k == 11 {
        "SCCEffectSet"@
    } else if k == 12 {
        "SSCCuriousConfiguration"@
    } else if k == 13 {
        "ZCurve"@
    } else if k == 14 {
        "SMapMarkerData"@
    } else if k == 15 {
        "ZHUDOccluderTriggerEntity.SBoneTestSetup"@
    } else if k == 16 {
        "SGaitTransitionEntry"@
    } else if k == 17 {
        "SClothVertex"@
    } else if k == 18 {
        "ZSharedSensorDef.SVisibilitySetting"@
    } else if k == 19 {
        "SFontLibraryDefinition"@
    } else if k == 20 {
        "SCamBone"@
    } else if k == 21 {
        "SConversationPart"@
    } else if k == 22 {
        "AI.SFirePattern01"@
    } else if k == 23 {
        "STargetableBoneConfiguration"@
    } else if k == 24 {
        "ZSecuritySystemCameraConfiguration.SHitmanVisibleEscalationRule"@
    } else if k == 25 {
        "AI.SFirePattern02"@
    } else if k == 26 {
        "ZSecuritySystemCameraConfiguration.SDeadBodyVisibleEscalationRule"@
    } else if k == 27 {
        "ZOverlayControllerEntity.SInputData"@
    } else if k == 28 {
        "ZEntityReference"@
    } else if k == 29 {
        "SLayerBehaviorConfiguration"@
    } else if k == 30 {
        "ZHM5CrowdGenericEventConsumer.SCrowdSoundGenericEventData"@
    } else if k == 31 {
        "ZHM5FootstepEventConsumer.SFootstepSoundEventData"@
    } else if k == 32 {
        "ZHM5AudioEventConsumer.SAudioAnimationEventData"@
    } else if k == 33 {
        "ZHM5HIKEventConsumer.SZHM5HIKEventData"@
    } else {
        "ZInteractionEventConsumer.SInteractionEventData"@
    }
}

fn known_variant(k: usize) -> (r: &'static str)
    requires
        k < KNOWN_VARIANT_COUNT,
    ensures
        r@ == known_variant_id(k as int),
{
    match k {
        0 => "SColorRGB",
        1 => "SColorRGBA",
        2 => "ZGuid",
        3 => "ZGameTime",
        4 => "SVector2",
        5 => "SVector3",
        6 => "SVector4",
        7 => "SMatrix43",
        8 => "SWorldSpaceSettings",
        9 => "S25DProjectionSettings",
        10 => "SBodyPartDamageMultipliers",
        11 => "SCCEffectSet",
        12 => "SSCCuriousConfiguration",
        13 => "ZCurve",
        14 => "SMapMarkerData",
        15 => "ZHUDOccluderTriggerEntity.SBoneTestSetup",
        16 => "SGaitTransitionEntry",
        17 => "SClothVertex",
        18 => "ZSharedSensorDef.SVisibilitySetting",
        19 => "SFontLibraryDefinition",
        20 => "SCamBone",
        21 => "SConversationPart",
        22 => "AI.SFirePattern01",
        23 => "STargetableBoneConfiguration",
        24 => "ZSecuritySystemCameraConfiguration.SHitmanVisibleEscalationRule",
        25 => "AI.SFirePattern02",
        26 => "ZSecuritySystemCameraConfiguration.SDeadBodyVisibleEscalationRule",
        27 => "ZOverlayControllerEntity.SInputData",
        28 => "ZEntityReference",
        29 => "SLayerBehaviorConfiguration",
        30 => "ZHM5CrowdGenericEventConsumer.SCrowdSoundGenericEventData",
        31 => "ZHM5FootstepEventConsumer.SFootstepSoundEventData",
        32 => "ZHM5AudioEventConsumer.SAudioAnimationEventData",
        33 => "ZHM5HIKEventConsumer.SZHM5HIKEventData",
        _ => "ZInteractionEventConsumer.SInteractionEventData",
    }
}

/// The index of the first structure of `s` from `i` on whose type ID (`by_id`) or
/// Rust name is `name`, or -1.
pub open spec fn struct_index_from(s: Seq<RustStruct>, name: Seq<char>, by_id: bool, i: int) -> int
    decreases s.len() - i,
{
    if i < 0 || i >= s.len() {
        -1
    } else if (if by_id {
        s[i].type_id@
    } else {
        s[i].rust_name@
    }) == name {
        i
    } else {
        struct_index_from(s, name, by_id, i + 1)
    }
}

/// The index of the first enum of `e` from `i` on whose Rust name is `name`, or -1.
pub open spec fn enum_index_from(e: Seq<RustEnum>, name: Seq<char>, i: int) -> int
    decreases e.len() - i,
{
    if i < 0 || i >= e.len() {
        -1
    } else if e[i].rust_name@ == name {
        i
    } else {
        enum_index_from(e, name, i + 1)
    }
}

/// Moves the structure at index `i` of the remaining ones to the end of the queue.
pub open spec fn enqueue(st: Selection, i: int) -> Selection {
    Selection { remaining: st.remaining.remove(i), queue: st.queue.push(st.remaining[i]), ..st }
}

/// Moves the first remaining structure with the type ID `id` to the queue, if any.
pub open spec fn enqueue_by_id(st: Selection, id: Seq<char>) -> Selection {
    let i = struct_index_from(st.remaining, id, true, 0);
    if i >= 0 {
        enqueue(st, i)
    } else {
        st
    }
}

/// Moves the known variant structures from the `k`-th on to the queue.
pub open spec fn enqueue_known(st: Selection, k: int) -> Selection
    decreases KNOWN_VARIANT_COUNT - k,
{
    if k < 0 || k >= KNOWN_VARIANT_COUNT {
        st
    } else {
        enqueue_known(enqueue_by_id(st, known_variant_id(k)), k + 1)
    }
}

/// Adds an import to the steps.
pub open spec fn with_import(st: Selection, i: Import) -> Selection {
    Selection { steps: st.steps.push(Step::Import(i)), ..st }
}

/// Moves every remaining enum to the enums to generate.
pub open spec fn take_enums(st: Selection) -> Selection {
    Selection { enum_queue: st.enum_queue + st.enums, enums: Seq::empty(), ..st }
}

/// What the generation does with a type name that a field uses.
pub open spec fn use_type(st: Selection, t: Seq<char>) -> Selection {
    if t == "ZVariant"@ || t == "SEntityTemplateProperty"@ {
        take_enums(with_import(enqueue_known(st, 0), Import::FromStr))
    } else if t == "TResourcePtr"@ {
        with_import(st, Import::TResourcePtr)
    } else if t == "TypeID"@ {
        with_import(st, Import::TypeID)
    } else if has_prefix(t, "ZHMPtrLen<"@) {
        with_import(st, Import::ZHMPtrLen)
    } else if struct_index_from(st.remaining, t, false, 0) >= 0 {
        enqueue(st, struct_index_from(st.remaining, t, false, 0))
    } else if enum_index_from(st.enums, t, 0) >= 0 {
        let j = enum_index_from(st.enums, t, 0);
        Selection {
            enum_queue: st.enum_queue.push(st.enums[j]),
            enums: st.enums.remove(j),
            ..with_import(st, Import::FromStr)
        }
    } else {
        st
    }
}

/// A field's type without the `Vec<` in front and the `>` behind.
pub open spec fn element_type(ty: Seq<char>) -> Seq<char> {
    trim_end_text(trim_start_text(ty, "Vec<"@), ">"@)
}

/// The two types of a pair type `(a, b)`.
pub open spec fn pair_parts(t: Seq<char>) -> (Seq<char>, Seq<char>) {
    let inner = trim_end_text(trim_start_text(t, "("@), ")"@);
    let (a, b) = split_once(inner, ',')->0;
    (trim_ws(a), trim_ws(b))
}

/// Whether a pair type can be taken apart: where the element type starts with `(`,
/// it has a comma.
pub open spec fn pair_splits(ty: Seq<char>) -> bool {
    has_prefix(element_type(ty), "("@) ==> split_once(
        trim_end_text(trim_start_text(element_type(ty), "("@), ")"@),
        ',',
    ) is Some
}

/// The type names that a field's type uses: its element type and, for a pair,
/// the pair's two types.
pub open spec fn used_type_names(ty: Seq<char>) -> Seq<Seq<char>> {
    let t = element_type(ty);
    if has_prefix(t, "("@) {
        seq![t, pair_parts(t).0, pair_parts(t).1]
    } else {
        seq![t]
    }
}

/// What the generation does with the type names `names` from the `k`-th on.
pub open spec fn use_types(st: Selection, names: Seq<Seq<char>>, k: int) -> Selection
    decreases names.len() - k,
{
    if k < 0 || k >= names.len() {
        st
    } else {
        use_types(use_type(st, names[k]), names, k + 1)
    }
}

/// What the generation does with the fields `fields` from the `j`-th on.
pub open spec fn use_fields(st: Selection, fields: Seq<RustField>, j: int) -> Selection
    decreases fields.len() - j,
{
    if j < 0 || j >= fields.len() {
        st
    } else {
        use_fields(use_types(st, used_type_names(fields[j].ty@), 0), fields, j + 1)
    }
}

/// Whether one of `fields` is a fixed array.
pub open spec fn has_array_field(fields: Seq<RustField>) -> bool {
    exists|j: int| 0 <= j < fields.len() && has_prefix(#[trigger] fields[j].ty@, "["@)
}

/// Generates the structure at the front of the queue: the types that its fields use
/// first, then the import for fixed arrays where it has one, then the structure.
pub open spec fn visit(st: Selection) -> Selection {
    let s = st.queue[0];
    let used = use_fields(Selection { queue: st.queue.drop_first(), ..st }, s.fields@, 0);
    let with_arrays = if has_array_field(s.fields@) {
        with_import(used, Import::SerdeAs)
    } else {
        used
    };
    Selection { steps: with_arrays.steps.push(Step::Struct(s)), ..with_arrays }
}

/// A quantity that every visit lowers.
pub open spec fn pending(st: Selection) -> nat {
    2 * st.remaining.len() + st.queue.len()
}

proof fn lemma_enqueue_known(st: Selection, k: int)
    ensures
        pending(enqueue_known(st, k)) <= pending(st),
    decreases KNOWN_VARIANT_COUNT - k,
{
    if 0 <= k < KNOWN_VARIANT_COUNT {
        lemma_enqueue_known(enqueue_by_id(st, known_variant_id(k)), k + 1);
        lemma_struct_index(st.remaining, known_variant_id(k), true, 0);
    }
}

proof fn lemma_struct_index(s: Seq<RustStruct>, name: Seq<char>, by_id: bool, i: int)
    requires
        0 <= i,
    ensures
        struct_index_from(s, name, by_id, i) == -1 || i <= struct_index_from(s, name, by_id, i)
            < s.len(),
    decreases s.len() - i,
{
    if i < s.len() && (if by_id {
        s[i].type_id@
    } else {
        s[i].rust_name@
    }) != name {
        lemma_struct_index(s, name, by_id, i + 1);
    }
}

proof fn lemma_enum_index(e: Seq<RustEnum>, name: Seq<char>, i: int)
    requires
        0 <= i,
    ensures
        enum_index_from(e, name, i) == -1 || i <= enum_index_from(e, name, i) < e.len(),
    decreases e.len() - i,
{
    if i < e.len() && e[i].rust_name@ != name {
        lemma_enum_index(e, name, i + 1);
    }
}

proof fn lemma_use_type(st: Selection, t: Seq<char>)
    ensures
        pending(use_type(st, t)) <= pending(st),
{
    lemma_enqueue_known(st, 0);
    lemma_struct_index(st.remaining, t, false, 0);
    lemma_enum_index(st.enums, t, 0);
}

proof fn lemma_use_types(st: Selection, names: Seq<Seq<char>>, k: int)
    ensures
        pending(use_types(st, names, k)) <= pending(st),
    decreases names.len() - k,
{
    if 0 <= k < names.len() {
        lemma_use_type(st, names[k]);
        lemma_use_types(use_type(st, names[k]), names, k + 1);
    }
}

proof fn lemma_use_fields(st: Selection, fields: Seq<RustField>, j: int)
    ensures
        pending(use_fields(st, fields, j)) <= pending(st),
    decreases fields.len() - j,
{
    if 0 <= j < fields.len() {
        lemma_use_types(st, used_type_names(fields[j].ty@), 0);
        lemma_use_fields(use_types(st, used_type_names(fields[j].ty@), 0), fields, j + 1);
    }
}

/// Each visit lowers the number of pending structures.
pub proof fn lemma_visit_pending(st: Selection)
    requires
        st.queue.len() > 0,
    ensures
        pending(visit(st)) < pending(st),
{
    let s = st.queue[0];
    lemma_use_fields(Selection { queue: st.queue.drop_first(), ..st }, s.fields@, 0);
}

/// Visits the queued structures until none is left.
pub open spec fn drain(st: Selection) -> Selection
    decreases pending(st),
{
    if st.queue.len() == 0 {
        st
    } else {
        proof {
            lemma_visit_pending(st);
        }
        drain(visit(st))
    }
}

/// What the generation does with the names asked for, from the `k`-th on: a
/// structure with that type ID is queued, and `enums` takes every enum.
pub open spec fn use_roots(st: Selection, roots: Seq<Seq<char>>, k: int) -> Selection
    decreases roots.len() - k,
{
    if k < 0 || k >= roots.len() {
        st
    } else {
        let queued = enqueue_by_id(st, roots[k]);
        let next = if roots[k] == "enums"@ {
            take_enums(with_import(queued, Import::FromStr))
        } else {
            queued
        };
        use_roots(next, roots, k + 1)
    }
}

/// The structures of `s` without the first one whose Rust name is `name`.
pub open spec fn without_struct(s: Seq<RustStruct>, name: Seq<char>) -> Seq<RustStruct> {
    s.remove(struct_index_from(s, name, false, 0))
}

/// Whether both special structures are among `s`.
pub open spec fn has_special_structs(s: Seq<RustStruct>) -> bool {
    &&& struct_index_from(s, "ZRuntimeResourceID"@, false, 0) >= 0
    &&& struct_index_from(without_struct(s, "ZRuntimeResourceID"@), "SEntityTemplateProperty"@, false, 0) >= 0
}

/// The structures that the generation starts from: all of them but the two that the
/// core crate defines by hand.
pub open spec fn selectable(s: Seq<RustStruct>) -> Seq<RustStruct> {
    without_struct(without_struct(s, "ZRuntimeResourceID"@), "SEntityTemplateProperty"@)
}

/// The outcome of the selection for the structures `structs`, the enums `enums` and
/// the names asked for `roots`.
pub open spec fn selection(structs: Seq<RustStruct>, enums: Seq<RustEnum>, roots: Seq<Seq<char>>) -> Selection {
    drain(use_roots(initial_selection(structs, enums), roots, 0))
}

/// Whether the fields of the structure at the front of the queue can be taken
/// apart.
pub open spec fn visit_ok(st: Selection) -> bool {
    forall|j: int|
        0 <= j < st.queue[0].fields@.len() ==> pair_splits(#[trigger] st.queue[0].fields@[j].ty@)
}

/// Whether every structure that the visits reach has fields that can be taken apart.
pub open spec fn drain_ok(st: Selection) -> bool
    decreases pending(st),
{
    if st.queue.len() == 0 {
        true
    } else {
        proof {
            lemma_visit_pending(st);
        }
        visit_ok(st) && drain_ok(visit(st))
    }
}

/// The state from which the selection starts.
pub open spec fn initial_selection(structs: Seq<RustStruct>, enums: Seq<RustEnum>) -> Selection {
    Selection {
        remaining: selectable(structs),
        enums,
        queue: Seq::empty(),
        steps: Seq::empty(),
        enum_queue: Seq::empty(),
    }
}

/// The state of a selection in progress.
pub struct SelectionState {
    remaining: Vec<RustStruct>,
    enums: Vec<RustEnum>,
    queue: Vec<RustStruct>,
    steps: Vec<Step>,
    enum_queue: Vec<RustEnum>,
}

impl SelectionState {
    /// The state as mathematical values.
    pub closed spec fn view(&self) -> Selection {
        Selection {
            remaining: self.remaining@,
            enums: self.enums@,
            queue: self.queue@,
            steps: self.steps@,
            enum_queue: self.enum_queue@,
        }
    }
}

fn find_struct(s: &Vec<RustStruct>, name: &[char], by_id: bool) -> (r: Option<usize>)
    ensures
        r matches Some(i) ==> i == struct_index_from(s@, name@, by_id, 0) && i < s@.len(),
        r is None ==> struct_index_from(s@, name@, by_id, 0) == -1,
{
    let mut i: usize = 0;
    while i < s.len()
        invariant
            i <= s@.len(),
            struct_index_from(s@, name@, by_id, 0) == struct_index_from(s@, name@, by_id, i as int),
        decreases s@.len() - i,
    {
        let candidate = if by_id {
            chars_of(s[i].type_id.as_str())
        } else {
            chars_of(s[i].rust_name.as_str())
        };
        if chars_eq(candidate.as_slice(), name) {
            return Some(i);
        }
        i = i + 1;
    }
    None
}

fn find_enum(e: &Vec<RustEnum>, name: &[char]) -> (r: Option<usize>)
    ensures
        r matches Some(i) ==> i == enum_index_from(e@, name@, 0) && i < e@.len(),
        r is None ==> enum_index_from(e@, name@, 0) == -1,
{
    let mut i: usize = 0;
    while i < e.len()
        invariant
            i <= e@.len(),
            enum_index_from(e@, name@, 0) == enum_index_from(e@, name@, i as int),
        decreases e@.len() - i,
    {
        let candidate = chars_of(e[i].rust_name.as_str());
        if chars_eq(candidate.as_slice(), name) {
            return Some(i);
        }
        i = i + 1;
    }
    None
}

impl SelectionState {
    fn enqueue_at(&mut self, i: usize)
        requires
            i < old(self)@.remaining.len(),
        ensures
            final(self)@ == enqueue(old(self)@, i as int),
    {
        let s = self.remaining.remove(i);
        self.queue.push(s);
    }

    fn enqueue_id(&mut self, id: &[char])
        ensures
            final(self)@ == enqueue_by_id(old(self)@, id@),
    {
        match find_struct(&self.remaining, id, true) {
            Some(i) => self.enqueue_at(i),
            None => {},
        }
    }

    fn enqueue_known_variants(&mut self)
        ensures
            final(self)@ == enqueue_known(old(self)@, 0),
    {
        let mut k: usize = 0;
        while k < KNOWN_VARIANT_COUNT
            invariant
                k <= KNOWN_VARIANT_COUNT,
                enqueue_known(old(self)@, 0) == enqueue_known(self@, k as int),
            decreases KNOWN_VARIANT_COUNT - k,
        {
            let id = chars_of(known_variant(k));
            self.enqueue_id(id.as_slice());
            k = k + 1;
        }
    }

    fn import(&mut self, i: Import)
        ensures
            final(self)@ == with_import(old(self)@, i),
    {
        self.steps.push(Step::Import(i));
    }

    fn take_all_enums(&mut self)
        ensures
            final(self)@ == take_enums(old(self)@),
    {
        self.enum_queue.append(&mut self.enums);
    }

    fn use_type_name(&mut self, t: &[char])
        ensures
            final(self)@ == use_type(old(self)@, t@),
    {
        if is_text(t, "ZVariant") || is_text(t, "SEntityTemplateProperty") {
            self.enqueue_known_variants();
            self.import(Import::FromStr);
            self.take_all_enums();
        } else if is_text(t, "TResourcePtr") {
            self.import(Import::TResourcePtr);
        } else if is_text(t, "TypeID") {
            self.import(Import::TypeID);
        } else if starts_with_text(t, "ZHMPtrLen<") {
            self.import(Import::ZHMPtrLen);
        } else {
            match find_struct(&self.remaining, t, false) {
                Some(i) => self.enqueue_at(i),
                None => {
                    match find_enum(&self.enums, t) {
                        Some(j) => {
                            self.import(Import::FromStr);
                            let e = self.enums.remove(j);
                            self.enum_queue.push(e);
                        },
                        None => {},
                    }
                },
            }
        }
    }

    fn use_field_type(&mut self, ty: &str)
        requires
            pair_splits(ty@),
        ensures
            final(self)@ == use_types(old(self)@, used_type_names(ty@), 0),
    {
        let chars = chars_of(ty);
        let vec_start = chars_of("Vec<");
        let close = chars_of(">");
        let without_vec = trim_start_chars(chars.as_slice(), vec_start.as_slice());
        let t = trim_end_chars(without_vec.as_slice(), close.as_slice());
        let ghost names = used_type_names(ty@);
        assert(t@ == element_type(ty@));
        let ghost start = self@;
        self.use_type_name(t.as_slice());
        let ghost s1 = self@;
        assert(names[0] == t@);
        assert(use_types(start, names, 0) == use_types(s1, names, 1));
        if starts_with_text(t.as_slice(), "(") {
            let open = chars_of("(");
            let close_paren = chars_of(")");
            let a = trim_start_chars(t.as_slice(), open.as_slice());
            let inner = trim_end_chars(a.as_slice(), close_paren.as_slice());
            let comma = find_char(inner.as_slice(), ',');
            match comma {
                Some(c) => {
                    let mut first: Vec<char> = Vec::new();
                    let mut k: usize = 0;
                    while k < c
                        invariant
                            k <= c < inner@.len(),
                            first@ == inner@.take(k as int),
                        decreases c - k,
                    {
                        first.push(inner[k]);
                        k = k + 1;
                        assert(first@ =~= inner@.take(k as int));
                    }
                    let mut second: Vec<char> = Vec::new();
                    let mut k: usize = c + 1;
                    while k < inner.len()
                        invariant
                            c + 1 <= k <= inner@.len(),
                            second@ == inner@.subrange(c + 1, k as int),
                        decreases inner@.len() - k,
                    {
                        second.push(inner[k]);
                        k = k + 1;
                        assert(second@ =~= inner@.subrange(c + 1, k as int));
                    }
                    assert(second@ =~= inner@.skip(c + 1));
                    let first_trimmed = trim_chars(first.as_slice());
                    let second_trimmed = trim_chars(second.as_slice());
                    assert(names[1] == first_trimmed@ && names[2] == second_trimmed@);
                    self.use_type_name(first_trimmed.as_slice());
                    let ghost s2 = self@;
                    self.use_type_name(second_trimmed.as_slice());
                    let ghost s3 = self@;
                    assert(names.len() == 3);
                    assert(use_types(s1, names, 1) == use_types(s2, names, 2));
                    assert(use_types(s2, names, 2) == use_types(s3, names, 3));
                    assert(use_types(s3, names, 3) == s3);
                },
                None => {
                    assert(false);
                },
            }
        } else {
            assert(names.len() == 1);
            assert(use_types(s1, names, 1) == s1);
        }
    }

    fn use_struct_fields(&mut self, fields: &Vec<RustField>)
        requires
            forall|j: int| 0 <= j < fields@.len() ==> pair_splits(#[trigger] fields@[j].ty@),
        ensures
            final(self)@ == use_fields(old(self)@, fields@, 0),
    {
        let mut j: usize = 0;
        while j < fields.len()
            invariant
                j <= fields@.len(),
                forall|j: int| 0 <= j < fields@.len() ==> pair_splits(#[trigger] fields@[j].ty@),
                use_fields(old(self)@, fields@, 0) == use_fields(self@, fields@, j as int),
            decreases fields@.len() - j,
        {
            assert(pair_splits(fields@[j as int].ty@));
            self.use_field_type(fields[j].ty.as_str());
            j = j + 1;
        }
    }
}

/// Whether the type of a field can be taken apart: where its element type is a
/// pair, it holds a comma.
pub fn field_type_splits(ty: &str) -> (r: bool)
    ensures
        r == pair_splits(ty@),
{
    let chars = chars_of(ty);
    let vec_start = chars_of("Vec<");
    let close = chars_of(">");
    let without_vec = trim_start_chars(chars.as_slice(), vec_start.as_slice());
    let t = trim_end_chars(without_vec.as_slice(), close.as_slice());
    if starts_with_text(t.as_slice(), "(") {
        let open = chars_of("(");
        let close_paren = chars_of(")");
        let a = trim_start_chars(t.as_slice(), open.as_slice());
        let inner = trim_end_chars(a.as_slice(), close_paren.as_slice());
        find_char(inner.as_slice(), ',').is_some()
    } else {
        true
    }
}

fn has_array(fields: &Vec<RustField>) -> (r: bool)
    ensures
        r == has_array_field(fields@),
{
    let mut j: usize = 0;
    while j < fields.len()
        invariant
            j <= fields@.len(),
            forall|k: int| 0 <= k < j ==> !has_prefix(#[trigger] fields@[k].ty@, "["@),
        decreases fields@.len() - j,
    {
        let chars = chars_of(fields[j].ty.as_str());
        if starts_with_text(chars.as_slice(), "[") {
            return true;
        }
        j = j + 1;
    }
    false
}

/// Chooses the structures and enums to generate, in the order in which they are
/// generated, from the structures `structs`, the enums `enums` and the names asked
/// for `to_generate` (type IDs, and `enums` for every enum). It returns the steps
/// (imports and structures) and then the enums.
pub fn select(structs: Vec<RustStruct>, enums: Vec<RustEnum>, to_generate: &[&[&str]]) -> (r: Option<(
    Vec<Step>,
    Vec<RustEnum>,
)>)
    requires
        has_special_structs(structs@),
    ensures
        r is Some <==> drain_ok(
            use_roots(initial_selection(structs@, enums@), roots_of(to_generate@), 0),
        ),
        r matches Some(p) ==> p.0@ == selection(structs@, enums@, roots_of(to_generate@)).steps
            && p.1@ == selection(structs@, enums@, roots_of(to_generate@)).enum_queue,
{
    let ghost structs0 = structs@;
    let ghost enums0 = enums@;
    let mut remaining = structs;
    let runtime_id = chars_of("ZRuntimeResourceID");
    let property = chars_of("SEntityTemplateProperty");
    let first = find_struct(&remaining, runtime_id.as_slice(), false);
    match first {
        Some(i) => {
            remaining.remove(i);
        },
        None => {
            assert(false);
        },
    }
    let second = find_struct(&remaining, property.as_slice(), false);
    match second {
        Some(i) => {
            remaining.remove(i);
        },
        None => {
            assert(false);
        },
    }
    assert(remaining@ == selectable(structs@));
    let mut st = SelectionState {
        remaining,
        enums,
        queue: Vec::new(),
        steps: Vec::new(),
        enum_queue: Vec::new(),
    };
    let ghost roots = roots_of(to_generate@);
    let ghost start = st@;
    assert(start == initial_selection(structs0, enums0));
    let mut g: usize = 0;
    let ghost mut k: int = 0;
    while g < to_generate.len()
        invariant
            g <= to_generate@.len(),
            roots == roots_of(to_generate@),
            k == roots_of(to_generate@.take(g as int)).len(),
            use_roots(start, roots, 0) == use_roots(st@, roots, k),
        decreases to_generate@.len() - g,
    {
        let group = to_generate[g];
        proof {
            lemma_roots_step(to_generate@, g as int);
        }
        let mut n: usize = 0;
        while n < group.len()
            invariant
                g < to_generate@.len(),
                group == to_generate@[g as int],
                n <= group@.len(),
                roots == roots_of(to_generate@),
                k == roots_of(to_generate@.take(g as int)).len() + n,
                roots_of(to_generate@.take(g + 1)) == roots_of(to_generate@.take(g as int))
                    + group@.map_values(|s: &str| s@),
                use_roots(start, roots, 0) == use_roots(st@, roots, k),
            decreases group@.len() - n,
        {
            let name = chars_of(group[n]);
            proof {
                lemma_roots_prefix(to_generate@, g + 1);
                assert(roots[k] == group@[n as int]@);
            }
            let ghost before = st@;
            st.enqueue_id(name.as_slice());
            if is_text(name.as_slice(), "enums") {
                st.import(Import::FromStr);
                st.take_all_enums();
            }
            n = n + 1;
            proof {
                k = k + 1;
            }
        }
        g = g + 1;
    }
    proof {
        assert(to_generate@.take(to_generate@.len() as int) =~= to_generate@);
        assert(st@ == use_roots(start, roots, 0));
    }
    while st.queue.len() > 0
        invariant
            drain(use_roots(start, roots, 0)) == drain(st@),
            drain_ok(use_roots(start, roots, 0)) == drain_ok(st@),
            start == initial_selection(structs@, enums@),
            roots == roots_of(to_generate@),
        decreases pending(st@),
    {
        proof {
            lemma_visit_pending(st@);
        }
        let ghost before = st@;
        let mut j: usize = 0;
        while j < st.queue[0].fields.len()
            invariant
                st@ == before,
                before.queue.len() > 0,
                drain_ok(use_roots(start, roots, 0)) == drain_ok(before),
                start == initial_selection(structs@, enums@),
                roots == roots_of(to_generate@),
                j <= before.queue[0].fields@.len(),
                forall|i: int| 0 <= i < j ==> pair_splits(#[trigger] before.queue[0].fields@[i].ty@),
            decreases before.queue[0].fields@.len() - j,
        {
            if !field_type_splits(st.queue[0].fields[j].ty.as_str()) {
                proof {
                    assert(!visit_ok(before));
                    assert(!drain_ok(before));
                }
                return None;
            }
            j = j + 1;
        }
        let s = st.queue.remove(0);
        assert(s == before.queue[0]);
        assert(visit_ok(before));
        st.use_struct_fields(&s.fields);
        if has_array(&s.fields) {
            st.import(Import::SerdeAs);
        }
        st.steps.push(Step::Struct(s));
    }
    Some((st.steps, st.enum_queue))
}

/// The names asked for, one group after the other.
pub open spec fn roots_of(groups: Seq<&[&str]>) -> Seq<Seq<char>>
    decreases groups.len(),
{
    if groups.len() == 0 {
        Seq::empty()
    } else {
        roots_of(groups.drop_last()) + groups.last()@.map_values(|s: &str| s@)
    }
}

proof fn lemma_roots_step(groups: Seq<&[&str]>, g: int)
    requires
        0 <= g < groups.len(),
    ensures
        roots_of(groups.take(g + 1)) == roots_of(groups.take(g)) + groups[g]@.map_values(
            |s: &str| s@,
        ),
{
    assert(groups.take(g + 1).drop_last() =~= groups.take(g));
}

proof fn lemma_roots_prefix(groups: Seq<&[&str]>, g: int)
    requires
        0 <= g <= groups.len(),
    ensures
        roots_of(groups) == roots_of(groups.take(g)) + roots_of(groups.skip(g)),
    decreases groups.len() - g,
{
    if g < groups.len() {
        lemma_roots_prefix(groups, g + 1);
        lemma_roots_step(groups, g);
        lemma_roots_skip(groups, g);
        assert(roots_of(groups.take(g)) + (groups[g]@.map_values(|s: &str| s@) + roots_of(
            groups.skip(g + 1),
        )) =~= (roots_of(groups.take(g)) + groups[g]@.map_values(|s: &str| s@)) + roots_of(
            groups.skip(g + 1),
        ));
    } else {
        assert(groups.take(g) =~= groups);
        assert(groups.skip(g) =~= Seq::<&[&str]>::empty());
        assert(roots_of(groups) + Seq::<Seq<char>>::empty() =~= roots_of(groups));
    }
}

proof fn lemma_roots_skip(groups: Seq<&[&str]>, g: int)
    requires
        0 <= g < groups.len(),
    ensures
        roots_of(groups.skip(g)) == groups[g]@.map_values(|s: &str| s@) + roots_of(
            groups.skip(g + 1),
        ),
    decreases groups.len() - g,
{
    let rest = groups.skip(g);
    if g + 1 < groups.len() {
        lemma_roots_skip(groups, g + 1);
        assert(rest.drop_last() =~= groups.take(groups.len() - 1).skip(g));
        lemma_roots_skip(groups.drop_last(), g);
        assert(groups.drop_last().skip(g + 1) =~= groups.skip(g + 1).drop_last());
        assert(groups.drop_last().skip(g) =~= rest.drop_last());
        assert(rest.last() == groups.skip(g + 1).last());
        assert(groups[g]@.map_values(|s: &str| s@) + roots_of(groups.skip(g + 1).drop_last()) + groups.skip(g + 1).last()@.map_values(|s: &str| s@) =~= groups[g]@.map_values(|s: &str| s@) + (roots_of(groups.skip(g + 1).drop_last()) + groups.skip(g + 1).last()@.map_values(|s: &str| s@)));
    } else {
        assert(rest.drop_last() =~= Seq::<&[&str]>::empty());
        assert(groups.skip(g + 1) =~= Seq::<&[&str]>::empty());
        assert(Seq::<Seq<char>>::empty() + groups[g]@.map_values(|s: &str| s@) =~= groups[g]@.map_values(|s: &str| s@));
        assert(groups[g]@.map_values(|s: &str| s@) + Seq::<Seq<char>>::empty() =~= groups[g]@.map_values(|s: &str| s@));
    }
}

/// The structures among `steps`, in order.
pub open spec fn steps_structs(steps: Seq<Step>) -> Seq<RustStruct>
    decreases steps.len(),
{
    if steps.len() == 0 {
        Seq::empty()
    } else {
        let rest = steps_structs(steps.drop_last());
        match steps.last() {
            Step::Struct(s) => rest.push(s),
            Step::Import(_) => rest,
        }
    }
}

/// The structures that a selection state holds, counted with repetition: those
/// remaining, those queued and those generated.
pub open spec fn held(st: Selection) -> Multiset<RustStruct> {
    st.remaining.to_multiset().add(st.queue.to_multiset()).add(steps_structs(st.steps).to_multiset())
}

proof fn lemma_held_enqueue(st: Selection, i: int)
    requires
        0 <= i < st.remaining.len(),
    ensures
        held(enqueue(st, i)) == held(st),
{
    broadcast use vstd::seq_lib::group_to_multiset_ensures;

    let x = st.remaining[i];
    assert(st.remaining.to_multiset().count(x) > 0) by {
        assert(st.remaining.contains(x));
    }
    assert(held(enqueue(st, i)) =~= held(st));
}

proof fn lemma_held_import(st: Selection, i: Import)
    ensures
        held(with_import(st, i)) == held(st),
{
    assert(with_import(st, i).steps.drop_last() =~= st.steps);
    assert(steps_structs(with_import(st, i).steps) == steps_structs(st.steps));
}

proof fn lemma_held_enqueue_by_id(st: Selection, id: Seq<char>)
    ensures
        held(enqueue_by_id(st, id)) == held(st),
{
    lemma_struct_index(st.remaining, id, true, 0);
    let i = struct_index_from(st.remaining, id, true, 0);
    if i >= 0 {
        lemma_held_enqueue(st, i);
    }
}

proof fn lemma_held_known(st: Selection, k: int)
    ensures
        held(enqueue_known(st, k)) == held(st),
    decreases KNOWN_VARIANT_COUNT - k,
{
    if 0 <= k < KNOWN_VARIANT_COUNT {
        lemma_held_enqueue_by_id(st, known_variant_id(k));
        lemma_held_known(enqueue_by_id(st, known_variant_id(k)), k + 1);
    }
}

proof fn lemma_held_use_type(st: Selection, t: Seq<char>)
    ensures
        held(use_type(st, t)) == held(st),
{
    lemma_held_known(st, 0);
    lemma_held_import(enqueue_known(st, 0), Import::FromStr);
    lemma_held_import(st, Import::TResourcePtr);
    lemma_held_import(st, Import::TypeID);
    lemma_held_import(st, Import::ZHMPtrLen);
    lemma_held_import(st, Import::FromStr);
    lemma_struct_index(st.remaining, t, false, 0);
    let i = struct_index_from(st.remaining, t, false, 0);
    if i >= 0 {
        lemma_held_enqueue(st, i);
    }
}

proof fn lemma_held_use_types(st: Selection, names: Seq<Seq<char>>, k: int)
    ensures
        held(use_types(st, names, k)) == held(st),
    decreases names.len() - k,
{
    if 0 <= k < names.len() {
        lemma_held_use_type(st, names[k]);
        lemma_held_use_types(use_type(st, names[k]), names, k + 1);
    }
}

proof fn lemma_held_use_fields(st: Selection, fields: Seq<RustField>, j: int)
    ensures
        held(use_fields(st, fields, j)) == held(st),
    decreases fields.len() - j,
{
    if 0 <= j < fields.len() {
        lemma_held_use_types(st, used_type_names(fields[j].ty@), 0);
        lemma_held_use_fields(use_types(st, used_type_names(fields[j].ty@), 0), fields, j + 1);
    }
}

proof fn lemma_held_visit(st: Selection)
    requires
        st.queue.len() > 0,
    ensures
        held(visit(st)) == held(st),
{
    broadcast use vstd::seq_lib::group_to_multiset_ensures;

    let s = st.queue[0];
    let popped = Selection { queue: st.queue.drop_first(), ..st };
    assert(st.queue.drop_first() =~= st.queue.remove(0));
    assert(st.queue.to_multiset().count(s) > 0) by {
        assert(st.queue.contains(s));
    }
    lemma_held_use_fields(popped, s.fields@, 0);
    let used = use_fields(popped, s.fields@, 0);
    let with_arrays = if has_array_field(s.fields@) {
        with_import(used, Import::SerdeAs)
    } else {
        used
    };
    lemma_held_import(used, Import::SerdeAs);
    let v = visit(st);
    assert(v.steps.drop_last() =~= with_arrays.steps);
    assert(steps_structs(v.steps) == steps_structs(with_arrays.steps).push(s));
    assert(held(popped) =~= held(st).remove(s));
    assert(held(v) =~= held(with_arrays).insert(s));
    assert(held(v) =~= held(st));
}

proof fn lemma_held_drain(st: Selection)
    ensures
        held(drain(st)) == held(st),
        drain(st).queue.len() == 0,
    decreases pending(st),
{
    if st.queue.len() > 0 {
        lemma_visit_pending(st);
        lemma_held_visit(st);
        lemma_held_drain(visit(st));
    }
}

proof fn lemma_held_roots(st: Selection, roots: Seq<Seq<char>>, k: int)
    ensures
        held(use_roots(st, roots, k)) == held(st),
    decreases roots.len() - k,
{
    if 0 <= k < roots.len() {
        let queued = enqueue_by_id(st, roots[k]);
        lemma_held_enqueue_by_id(st, roots[k]);
        lemma_held_import(queued, Import::FromStr);
        let next = if roots[k] == "enums"@ {
            take_enums(with_import(queued, Import::FromStr))
        } else {
            queued
        };
        lemma_held_roots(next, roots, k + 1);
    }
}

/// No structure is generated more often than it is described: counted with
/// repetition, the structures that the selection generates are among those that
/// it can generate.
pub proof fn lemma_generated_at_most_once(
    structs: Seq<RustStruct>,
    enums: Seq<RustEnum>,
    roots: Seq<Seq<char>>,
)
    ensures
        steps_structs(selection(structs, enums, roots).steps).to_multiset().subset_of(
            selectable(structs).to_multiset(),
        ),
{
    broadcast use vstd::seq_lib::group_to_multiset_ensures;

    let init = initial_selection(structs, enums);
    lemma_held_roots(init, roots, 0);
    lemma_held_drain(use_roots(init, roots, 0));
    assert(steps_structs(init.steps) =~= Seq::<RustStruct>::empty());
    assert(held(init) =~= selectable(structs).to_multiset());
}

/// A structure's type ID (`by_id`) or Rust name.
pub open spec fn struct_key(s: RustStruct, by_id: bool) -> Seq<char> {
    if by_id {
        s.type_id@
    } else {
        s.rust_name@
    }
}

/// Whether one of the structures `s` has the type ID (`by_id`) or Rust name `t`.
pub open spec fn keyed_in(s: Seq<RustStruct>, t: Seq<char>, by_id: bool) -> bool {
    exists|k: int| 0 <= k < s.len() && struct_key(#[trigger] s[k], by_id) == t
}

/// Whether one of the structures `s` has the Rust name `t`.
pub open spec fn named_in(s: Seq<RustStruct>, t: Seq<char>) -> bool {
    keyed_in(s, t, false)
}

/// Whether a structure with the type ID (`by_id`) or Rust name `t` is queued or
/// generated.
pub open spec fn taken_keyed(st: Selection, t: Seq<char>, by_id: bool) -> bool {
    keyed_in(st.queue, t, by_id) || keyed_in(steps_structs(st.steps), t, by_id)
}

/// Whether a structure with the Rust name `t` is queued or generated.
pub open spec fn taken_named(st: Selection, t: Seq<char>) -> bool {
    taken_keyed(st, t, false)
}

/// Whether the type ID (`by_id`) or name `t` is covered: a structure with that key
/// is queued or generated, or none is left to take.
pub open spec fn covered_by(st: Selection, t: Seq<char>, by_id: bool) -> bool {
    taken_keyed(st, t, by_id) || !keyed_in(st.remaining, t, by_id)
}

/// Whether the type name `t` is covered: a structure with that name is queued or
/// generated, or none is left to take.
pub open spec fn covered(st: Selection, t: Seq<char>) -> bool {
    covered_by(st, t, false)
}

/// Whether a field type name is one that the generation treats by its own rule
/// rather than by looking for a structure of that name.
pub open spec fn special_type_name(t: Seq<char>) -> bool {
    t == "ZVariant"@ || t == "SEntityTemplateProperty"@ || t == "TResourcePtr"@ || t == "TypeID"@
        || has_prefix(t, "ZHMPtrLen<"@)
}

/// From `st` to `st2` no structure name leaves the queued and generated ones, and
/// no name comes back to the remaining ones.
pub open spec fn kept(st: Selection, st2: Selection) -> bool {
    forall|t: Seq<char>, b: bool|
        #![trigger keyed_in(st2.remaining, t, b)]
        #![trigger taken_keyed(st2, t, b)]
        (keyed_in(st2.remaining, t, b) ==> keyed_in(st.remaining, t, b)) && (taken_keyed(st, t, b)
            ==> taken_keyed(st2, t, b))
}

/// Every type name that a generated structure's fields use, but the special ones,
/// is covered.
pub open spec fn closed(st: Selection) -> bool {
    forall|x: RustStruct, j: int, t: Seq<char>|
        #![trigger steps_structs(st.steps).contains(x), x.fields@[j], covered(st, t)]
        steps_structs(st.steps).contains(x) && 0 <= j < x.fields@.len() && used_type_names(
            x.fields@[j].ty@,
        ).contains(t) && !special_type_name(t) ==> covered(st, t)
}

proof fn lemma_kept_trans(a: Selection, b: Selection, c: Selection)
    requires
        kept(a, b),
        kept(b, c),
    ensures
        kept(a, c),
{
    assert forall|t: Seq<char>, m: bool|
        (keyed_in(c.remaining, t, m) ==> keyed_in(a.remaining, t, m)) && (taken_keyed(a, t, m)
            ==> taken_keyed(c, t, m)) by {
        if keyed_in(c.remaining, t, m) {
            assert(keyed_in(b.remaining, t, m));
        }
        if taken_keyed(a, t, m) {
            assert(taken_keyed(b, t, m));
        }
    }
}

proof fn lemma_kept_refl(a: Selection)
    ensures
        kept(a, a),
{
}

proof fn lemma_steps_push(steps: Seq<Step>, x: Step)
    ensures
        steps_structs(steps.push(x)) == match x {
            Step::Struct(s) => steps_structs(steps).push(s),
            Step::Import(_) => steps_structs(steps),
        },
{
    assert(steps.push(x).drop_last() =~= steps);
}

proof fn lemma_named_push(s: Seq<RustStruct>, x: RustStruct, t: Seq<char>, b: bool)
    ensures
        keyed_in(s, t, b) ==> keyed_in(s.push(x), t, b),
        struct_key(x, b) == t ==> keyed_in(s.push(x), t, b),
{
    if keyed_in(s, t, b) {
        let k = choose|k: int| 0 <= k < s.len() && struct_key(#[trigger] s[k], b) == t;
        assert(s.push(x)[k] == s[k]);
    }
    if struct_key(x, b) == t {
        assert(s.push(x)[s.len() as int] == x);
    }
}

proof fn lemma_kept_enqueue(st: Selection, i: int)
    requires
        0 <= i < st.remaining.len(),
    ensures
        kept(st, enqueue(st, i)),
        steps_structs(enqueue(st, i).steps) == steps_structs(st.steps),
        forall|b: bool| #[trigger] taken_keyed(enqueue(st, i), struct_key(st.remaining[i], b), b),
{
    let st2 = enqueue(st, i);
    assert forall|t: Seq<char>, b: bool|
        (keyed_in(st2.remaining, t, b) ==> keyed_in(st.remaining, t, b)) && (taken_keyed(st, t, b)
            ==> taken_keyed(st2, t, b)) by {
        if keyed_in(st2.remaining, t, b) {
            let k = choose|k: int|
                0 <= k < st2.remaining.len() && struct_key(#[trigger] st2.remaining[k], b) == t;
            if k < i {
                assert(st.remaining[k] == st2.remaining[k]);
            } else {
                assert(st.remaining[k + 1] == st2.remaining[k]);
            }
        }
        lemma_named_push(st.queue, st.remaining[i], t, b);
    }
    assert forall|b: bool| #[trigger] taken_keyed(st2, struct_key(st.remaining[i], b), b) by {
        lemma_named_push(st.queue, st.remaining[i], struct_key(st.remaining[i], b), b);
    }
}

proof fn lemma_kept_import(st: Selection, i: Import)
    ensures
        kept(st, with_import(st, i)),
        steps_structs(with_import(st, i).steps) == steps_structs(st.steps),
{
    lemma_steps_push(st.steps, Step::Import(i));
}

proof fn lemma_kept_by_id(st: Selection, id: Seq<char>)
    ensures
        kept(st, enqueue_by_id(st, id)),
        steps_structs(enqueue_by_id(st, id).steps) == steps_structs(st.steps),
        covered_by(enqueue_by_id(st, id), id, true),
{
    lemma_struct_index(st.remaining, id, true, 0);
    lemma_name_index(st.remaining, id, true, 0);
    let i = struct_index_from(st.remaining, id, true, 0);
    if i >= 0 {
        lemma_kept_enqueue(st, i);
    }
}

proof fn lemma_kept_known(st: Selection, k: int)
    ensures
        kept(st, enqueue_known(st, k)),
        steps_structs(enqueue_known(st, k).steps) == steps_structs(st.steps),
    decreases KNOWN_VARIANT_COUNT - k,
{
    if 0 <= k < KNOWN_VARIANT_COUNT {
        let next = enqueue_by_id(st, known_variant_id(k));
        lemma_kept_by_id(st, known_variant_id(k));
        lemma_kept_known(next, k + 1);
        lemma_kept_trans(st, next, enqueue_known(next, k + 1));
    }
}

proof fn lemma_name_index(s: Seq<RustStruct>, t: Seq<char>, b: bool, i: int)
    requires
        0 <= i,
    ensures
        struct_index_from(s, t, b, i) >= 0 ==> struct_key(s[struct_index_from(s, t, b, i)], b)
            == t,
        struct_index_from(s, t, b, i) < 0 ==> forall|k: int|
            i <= k < s.len() ==> struct_key(#[trigger] s[k], b) != t,
    decreases s.len() - i,
{
    if i < s.len() && struct_key(s[i], b) != t {
        lemma_name_index(s, t, b, i + 1);
    }
}

#[verifier::spinoff_prover]
proof fn lemma_kept_use_type(st: Selection, t: Seq<char>)
    ensures
        kept(st, use_type(st, t)),
        steps_structs(use_type(st, t).steps) == steps_structs(st.steps),
        !special_type_name(t) ==> covered(use_type(st, t), t),
{
    lemma_kept_known(st, 0);
    lemma_kept_import(enqueue_known(st, 0), Import::FromStr);
    lemma_kept_trans(st, enqueue_known(st, 0), with_import(enqueue_known(st, 0), Import::FromStr));
    lemma_kept_import(st, Import::TResourcePtr);
    lemma_kept_import(st, Import::TypeID);
    lemma_kept_import(st, Import::ZHMPtrLen);
    lemma_kept_import(st, Import::FromStr);
    lemma_struct_index(st.remaining, t, false, 0);
    lemma_name_index(st.remaining, t, false, 0);
    let i = struct_index_from(st.remaining, t, false, 0);
    if i >= 0 {
        lemma_kept_enqueue(st, i);
    }
    lemma_enum_index(st.enums, t, 0);
}

proof fn lemma_kept_use_types(st: Selection, names: Seq<Seq<char>>, k: int)
    requires
        0 <= k,
    ensures
        kept(st, use_types(st, names, k)),
        steps_structs(use_types(st, names, k).steps) == steps_structs(st.steps),
        forall|m: int|
            k <= m < names.len() && !special_type_name(names[m]) ==> covered(
                use_types(st, names, k),
                #[trigger] names[m],
            ),
    decreases names.len() - k,
{
    if k < names.len() {
        let next = use_type(st, names[k]);
        lemma_kept_use_type(st, names[k]);
        lemma_kept_use_types(next, names, k + 1);
        lemma_kept_trans(st, next, use_types(next, names, k + 1));
        let fin = use_types(next, names, k + 1);
        assert forall|m: int|
            k <= m < names.len() && !special_type_name(names[m]) implies covered(
                fin,
                #[trigger] names[m],
            ) by {
            if m == k {
                assert(covered(next, names[k]));
                assert(taken_named(next, names[k]) ==> taken_named(fin, names[k]));
                assert(named_in(fin.remaining, names[k]) ==> named_in(next.remaining, names[k]));
            }
        }
    }
}

proof fn lemma_kept_use_fields(st: Selection, fields: Seq<RustField>, j: int)
    requires
        0 <= j,
    ensures
        kept(st, use_fields(st, fields, j)),
        steps_structs(use_fields(st, fields, j).steps) == steps_structs(st.steps),
        forall|m: int, t: Seq<char>|
            #![trigger fields[m], covered(use_fields(st, fields, j), t)]
            j <= m < fields.len() && used_type_names(fields[m].ty@).contains(t)
                && !special_type_name(t) ==> covered(use_fields(st, fields, j), t),
    decreases fields.len() - j,
{
    if j < fields.len() {
        let names = used_type_names(fields[j].ty@);
        let next = use_types(st, names, 0);
        lemma_kept_use_types(st, names, 0);
        lemma_kept_use_fields(next, fields, j + 1);
        let fin = use_fields(next, fields, j + 1);
        lemma_kept_trans(st, next, fin);
        assert forall|m: int, t: Seq<char>|
            #![trigger fields[m], covered(fin, t)]
            j <= m < fields.len() && used_type_names(fields[m].ty@).contains(t)
                && !special_type_name(t) implies covered(fin, t) by {
            if m == j {
                let a = choose|a: int| 0 <= a < names.len() && names[a] == t;
                assert(covered(next, names[a]));
                assert(taken_named(next, t) ==> taken_named(fin, t));
                assert(named_in(fin.remaining, t) ==> named_in(next.remaining, t));
            }
        }
    }
}

proof fn lemma_closed_visit(st: Selection)
    requires
        st.queue.len() > 0,
        closed(st),
    ensures
        kept(st, visit(st)),
        closed(visit(st)),
{
    let s = st.queue[0];
    let popped = Selection { queue: st.queue.drop_first(), ..st };
    let used = use_fields(popped, s.fields@, 0);
    let with_arrays = if has_array_field(s.fields@) {
        with_import(used, Import::SerdeAs)
    } else {
        used
    };
    let v = visit(st);
    lemma_kept_use_fields(popped, s.fields@, 0);
    lemma_kept_import(used, Import::SerdeAs);
    lemma_steps_push(with_arrays.steps, Step::Struct(s));
    assert(steps_structs(v.steps) == steps_structs(st.steps).push(s));
    assert forall|t: Seq<char>, b: bool|
        (keyed_in(v.remaining, t, b) ==> keyed_in(st.remaining, t, b)) && (taken_keyed(st, t, b)
            ==> taken_keyed(v, t, b)) by {
        if keyed_in(v.remaining, t, b) {
            assert(keyed_in(with_arrays.remaining, t, b));
            assert(keyed_in(used.remaining, t, b));
        }
        if taken_keyed(st, t, b) {
            if keyed_in(st.queue, t, b) {
                let k = choose|k: int| 0 <= k < st.queue.len() && struct_key(#[trigger] st.queue[k], b) == t;
                if k == 0 {
                    lemma_named_push(steps_structs(with_arrays.steps), s, t, b);
                } else {
                    assert(popped.queue[k - 1] == st.queue[k]);
                    assert(taken_keyed(popped, t, b));
                    assert(taken_keyed(used, t, b));
                    assert(taken_keyed(with_arrays, t, b));
                    lemma_named_push(steps_structs(with_arrays.steps), s, t, b);
                }
            } else {
                assert(taken_keyed(popped, t, b));
                assert(taken_keyed(used, t, b));
                assert(taken_keyed(with_arrays, t, b));
                lemma_named_push(steps_structs(with_arrays.steps), s, t, b);
            }
        }
    }
    assert(kept(st, v));
    assert(kept(used, v)) by {
        assert forall|t: Seq<char>, b: bool|
            (keyed_in(v.remaining, t, b) ==> keyed_in(used.remaining, t, b)) && (taken_keyed(used, t, b)
                ==> taken_keyed(v, t, b)) by {
            if taken_keyed(used, t, b) {
                assert(taken_keyed(with_arrays, t, b));
                lemma_named_push(steps_structs(with_arrays.steps), s, t, b);
            }
        }
    }
    assert forall|x: RustStruct, j: int, t: Seq<char>|
        #![trigger steps_structs(v.steps).contains(x), x.fields@[j], covered(v, t)]
        steps_structs(v.steps).contains(x) && 0 <= j < x.fields@.len() && used_type_names(
            x.fields@[j].ty@,
        ).contains(t) && !special_type_name(t) implies covered(v, t) by {
        if x == s {
            assert(s.fields@[j] == s.fields@[j]);
            assert(covered(used, t));
        } else {
            let k = choose|k: int| 0 <= k < steps_structs(v.steps).len() && steps_structs(v.steps)[k] == x;
            assert(steps_structs(st.steps)[k] == x);
            assert(steps_structs(st.steps).contains(x));
            assert(covered(st, t));
        }
    }
}

proof fn lemma_closed_drain(st: Selection)
    requires
        closed(st),
    ensures
        closed(drain(st)),
        kept(st, drain(st)),
    decreases pending(st),
{
    if st.queue.len() > 0 {
        lemma_visit_pending(st);
        lemma_closed_visit(st);
        lemma_closed_drain(visit(st));
        lemma_kept_trans(st, visit(st), drain(visit(st)));
    }
}

proof fn lemma_roots_structs(st: Selection, roots: Seq<Seq<char>>, k: int)
    ensures
        steps_structs(use_roots(st, roots, k).steps) == steps_structs(st.steps),
    decreases roots.len() - k,
{
    if 0 <= k < roots.len() {
        let queued = enqueue_by_id(st, roots[k]);
        lemma_kept_by_id(st, roots[k]);
        lemma_kept_import(queued, Import::FromStr);
        let next = if roots[k] == "enums"@ {
            take_enums(with_import(queued, Import::FromStr))
        } else {
            queued
        };
        lemma_roots_structs(next, roots, k + 1);
    }
}

/// The generated structures are closed over the types that their fields use: where
/// a generated structure has a field whose type (its element type for a vector, and
/// each of the two types of a pair) is the Rust name of a structure that can be
/// generated, a structure with that name is generated too. Type names that the
/// generation treats by rules of their own are left out.
pub proof fn lemma_selection_closed(
    structs: Seq<RustStruct>,
    enums: Seq<RustEnum>,
    roots: Seq<Seq<char>>,
    x: RustStruct,
    j: int,
    t: Seq<char>,
)
    requires
        steps_structs(selection(structs, enums, roots).steps).contains(x),
        0 <= j < x.fields@.len(),
        used_type_names(x.fields@[j].ty@).contains(t),
        !special_type_name(t),
        named_in(selectable(structs), t),
    ensures
        named_in(steps_structs(selection(structs, enums, roots).steps), t),
{
    broadcast use vstd::seq_lib::group_to_multiset_ensures;

    let init = initial_selection(structs, enums);
    let u = use_roots(init, roots, 0);
    let sel = selection(structs, enums, roots);
    lemma_roots_structs(init, roots, 0);
    assert(steps_structs(init.steps) =~= Seq::<RustStruct>::empty());
    assert(closed(u));
    lemma_closed_drain(u);
    lemma_held_roots(init, roots, 0);
    lemma_held_drain(u);
    assert(held(init) =~= selectable(structs).to_multiset());
    assert(x.fields@[j] == x.fields@[j]);
    assert(covered(sel, t));
    if !taken_named(sel, t) {
        let k = choose|k: int| 0 <= k < selectable(structs).len() && (#[trigger] selectable(structs)[k]).rust_name@ == t;
        let y = selectable(structs)[k];
        assert(selectable(structs).contains(y));
        assert(held(sel).count(y) > 0);
        assert(sel.queue.to_multiset().count(y) == 0);
        if sel.remaining.contains(y) {
            let i = choose|i: int| 0 <= i < sel.remaining.len() && sel.remaining[i] == y;
            assert(named_in(sel.remaining, t));
        } else {
            assert(steps_structs(sel.steps).contains(y));
            let i = choose|i: int| 0 <= i < steps_structs(sel.steps).len() && steps_structs(sel.steps)[i] == y;
            assert(named_in(steps_structs(sel.steps), t));
        }
    }
}

proof fn lemma_roots_covered(st: Selection, roots: Seq<Seq<char>>, k: int)
    requires
        0 <= k,
    ensures
        kept(st, use_roots(st, roots, k)),
        forall|m: int|
            k <= m < roots.len() ==> covered_by(use_roots(st, roots, k), #[trigger] roots[m], true),
    decreases roots.len() - k,
{
    if k < roots.len() {
        let queued = enqueue_by_id(st, roots[k]);
        lemma_kept_by_id(st, roots[k]);
        lemma_kept_import(queued, Import::FromStr);
        let next = if roots[k] == "enums"@ {
            take_enums(with_import(queued, Import::FromStr))
        } else {
            queued
        };
        assert(kept(queued, next) && covered_by(next, roots[k], true)) by {
            if roots[k] == "enums"@ {
                let w = with_import(queued, Import::FromStr);
                assert(kept(w, take_enums(w)));
                lemma_kept_trans(queued, w, take_enums(w));
            }
        }
        lemma_kept_trans(st, queued, next);
        lemma_roots_covered(next, roots, k + 1);
        let fin = use_roots(next, roots, k + 1);
        lemma_kept_trans(st, next, fin);
        assert(covered_by(fin, roots[k], true));
    } else {
        lemma_kept_refl(st);
    }
}

/// Every structure asked for is generated: where a structure that can be generated
/// has a type ID that `roots` asks for, a structure with that type ID is generated.
pub proof fn lemma_selection_roots(
    structs: Seq<RustStruct>,
    enums: Seq<RustEnum>,
    roots: Seq<Seq<char>>,
    k: int,
)
    requires
        0 <= k < roots.len(),
        keyed_in(selectable(structs), roots[k], true),
    ensures
        keyed_in(steps_structs(selection(structs, enums, roots).steps), roots[k], true),
{
    broadcast use vstd::seq_lib::group_to_multiset_ensures;

    let init = initial_selection(structs, enums);
    let u = use_roots(init, roots, 0);
    let sel = selection(structs, enums, roots);
    lemma_roots_structs(init, roots, 0);
    assert(steps_structs(init.steps) =~= Seq::<RustStruct>::empty());
    assert(closed(u));
    lemma_roots_covered(init, roots, 0);
    lemma_closed_drain(u);
    lemma_held_roots(init, roots, 0);
    lemma_held_drain(u);
    assert(held(init) =~= selectable(structs).to_multiset());
    let t = roots[k];
    assert(covered_by(u, t, true));
    assert(covered_by(sel, t, true));
    if !taken_keyed(sel, t, true) {
        let j = choose|j: int|
            0 <= j < selectable(structs).len() && struct_key(#[trigger] selectable(structs)[j], true)
                == t;
        let y = selectable(structs)[j];
        assert(selectable(structs).contains(y));
        assert(held(sel).count(y) > 0);
        assert(sel.queue.to_multiset().count(y) == 0);
        if sel.remaining.contains(y) {
            let i = choose|i: int| 0 <= i < sel.remaining.len() && sel.remaining[i] == y;
            assert(keyed_in(sel.remaining, t, true));
        } else {
            assert(steps_structs(sel.steps).contains(y));
            let i = choose|i: int|
                0 <= i < steps_structs(sel.steps).len() && steps_structs(sel.steps)[i] == y;
            assert(keyed_in(steps_structs(sel.steps), t, true));
        }
    }
}

} // verus!
