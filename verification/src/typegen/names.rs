//! The names that types, fields and enum variants get in the generated Rust.
use vstd::prelude::*;
use vstd::utf8::encode_utf8;
use crate::typegen::text::{
    chars_of, string_of, chars_eq, is_text, starts_with_text, has_prefix, replace_char,
    replace_char_in, split_once, find_char, trim_start_text, trim_start_chars, is_ascii_digit,
    is_ascii_lowercase, parse_usize, parse_decimal, decimal, decimal_chars, digit_char,
    index_of, index_of_from,
};
use crate::typegen::pattern::{FIXED_ARRAY_PARTS, PAIR_PARTS, match_two, regex_captures, two_groups};

verus! {

/// What `inflector::cases::snakecase::to_snake_case` returns for a text.
pub uninterp spec fn snake_case(s: Seq<char>) -> Seq<char>;

/// What `inflector::cases::pascalcase::to_pascal_case` returns for a text.
pub uninterp spec fn pascal_case(s: Seq<char>) -> Seq<char>;

/// What `char::is_uppercase` returns: whether a character has the Unicode
/// property Uppercase.
pub uninterp spec fn char_is_uppercase(c: char) -> bool;

/// What `regex::Regex::is_match` returns for a pattern and a text, or `None` where
/// `regex::Regex::new` refuses the pattern.
pub uninterp spec fn regex_match(pattern: Seq<char>, text: Seq<char>) -> Option<bool>;

/// Whether the case conversions of the `inflector` crate can take `s`: they
/// reserve twice its length in bytes, which must not exceed `isize::MAX`.
pub open spec fn fits_case_conversion(s: Seq<char>) -> bool {
    encode_utf8(s).len() * 2 <= isize::MAX
}

/// Calls `inflector::cases::snakecase::to_snake_case`; the result is named
/// `snake_case`. That function reserves twice the text's length in bytes, which
/// panics beyond `isize::MAX`.
#[verifier::external_body]
fn to_snake_case(s: &str) -> (r: String)
    requires
        fits_case_conversion(s@),
    ensures
        r@ == snake_case(s@),
{
    inflector::cases::snakecase::to_snake_case(s)
}

/// Calls `inflector::cases::pascalcase::to_pascal_case`; the result is named
/// `pascal_case`. That function reserves twice the text's length in bytes, which
/// panics beyond `isize::MAX`.
#[verifier::external_body]
fn to_pascal_case(s: &str) -> (r: String)
    requires
        fits_case_conversion(s@),
    ensures
        r@ == pascal_case(s@),
{
    inflector::cases::pascalcase::to_pascal_case(s)
}

/// Calls `char::is_uppercase`; the result is named `char_is_uppercase`. Among the
/// characters of ASCII, the Uppercase property belongs to `A` to `Z` alone.
#[verifier::external_body]
fn is_uppercase(c: char) -> (r: bool)
    ensures
        r == char_is_uppercase(c),
        (c as u32) < 0x80 ==> (r <==> ('A' <= c <= 'Z')),
{
    c.is_uppercase()
}

/// Compiles `pattern` with `regex::Regex::new` and, where that succeeds, asks
/// `regex::Regex::is_match` whether it matches `text`; the result is named
/// `regex_match`.
#[verifier::external_body]
fn regex_is_match(pattern: &str, text: &str) -> (r: Option<bool>)
    ensures
        r == regex_match(pattern@, text@),
{
    match lazy_regex::Regex::new(pattern) {
        Ok(re) => Some(re.is_match(text)),
        Err(_) => None,
    }
}

/// The pattern of field names that are kept as they are: an `m` and digits.
pub const MEMBER_NUMBER_PATTERN: &'static str = "m\\d+";

proof fn lemma_encode_utf8_concat(a: Seq<char>, b: Seq<char>)
    ensures
        encode_utf8(a + b).len() == encode_utf8(a).len() + encode_utf8(b).len(),
    decreases a.len(),
{
    if a.len() > 0 {
        assert((a + b).drop_first() =~= a.drop_first() + b);
        lemma_encode_utf8_concat(a.drop_first(), b);
    } else {
        assert(a + b =~= b);
    }
}

proof fn lemma_fits_suffix(s: Seq<char>, k: int)
    requires
        0 <= k <= s.len(),
        fits_case_conversion(s),
    ensures
        fits_case_conversion(s.skip(k)),
{
    assert(s =~= s.take(k) + s.skip(k));
    lemma_encode_utf8_concat(s.take(k), s.skip(k));
}

proof fn lemma_trim_start_suffix(s: Seq<char>, p: Seq<char>)
    ensures
        trim_start_text(s, p).len() <= s.len(),
        trim_start_text(s, p) == s.skip(s.len() - trim_start_text(s, p).len()),
    decreases s.len(),
{
    if p.len() > 0 && has_prefix(s, p) {
        lemma_trim_start_suffix(s.skip(p.len() as int), p);
        let r = trim_start_text(s, p);
        assert(s.skip(p.len() as int).skip(s.skip(p.len() as int).len() - r.len()) =~= s.skip(
            s.len() - r.len(),
        ));
    } else {
        assert(s.skip(0) =~= s);
    }
}

/// Whether a field's name is rewritten in snake case: unless it is two bytes long
/// or holds an `m` followed by digits, or when it starts with an uppercase letter.
pub open spec fn needs_snake_case(name: Seq<char>) -> bool {
    ||| (encode_utf8(name).len() != 2 && regex_match(MEMBER_NUMBER_PATTERN@, name) != Some(true))
    ||| (name.len() > 0 && char_is_uppercase(name[0]))
}

/// A name without its one-letter prefix: the part after the first `_`, where the
/// part before it is a single ASCII character other than `x`, `y` and `z`, and the
/// part after it is not empty.
pub open spec fn without_letter_prefix(name: Seq<char>) -> Seq<char> {
    match split_once(name, '_') {
        Some((start, rest)) => if start.len() == 1 && (start[0] as u32) < 0x80 && start[0] != 'x'
            && start[0] != 'y' && start[0] != 'z' && rest.len() > 0 {
            rest
        } else {
            name
        },
        None => name,
    }
}

/// A name with Rust's keywords `type`, `ref` and `move` replaced.
pub open spec fn without_keyword(name: Seq<char>) -> Seq<char> {
    if name == "type"@ {
        "r#type"@
    } else if name == "ref"@ {
        "reference"@
    } else if name == "move"@ {
        "r#move"@
    } else {
        name
    }
}

/// The Rust name of a field.
pub open spec fn field_rust_name(name: Seq<char>) -> Seq<char> {
    let cased = if needs_snake_case(name) {
        snake_case(name)
    } else {
        name
    };
    without_keyword(without_letter_prefix(without_letter_prefix(cased)))
}

/// A field's Rust name is never one of the keywords `type`, `ref` and `move`.
pub proof fn lemma_field_name_not_keyword(name: Seq<char>)
    ensures
        field_rust_name(name) != "type"@,
        field_rust_name(name) != "ref"@,
        field_rust_name(name) != "move"@,
{
    reveal_strlit("type");
    reveal_strlit("ref");
    reveal_strlit("move");
    reveal_strlit("r#type");
    reveal_strlit("reference");
    reveal_strlit("r#move");
    assert("r#type"@ != "type"@ && "r#type"@ != "ref"@ && "r#type"@ != "move"@) by {
        assert("r#type"@[1] == '#');
        assert("r#type"@.len() == 6);
    }
    assert("reference"@.len() == 9);
    assert("r#move"@ != "move"@ && "r#move"@ != "ref"@ && "r#move"@ != "type"@) by {
        assert("r#move"@.len() == 6);
        assert("r#move"@[1] == '#');
    }
}

/// The Rust name of a type: its name with `.` replaced by `_`.
pub open spec fn type_rust_name(name: Seq<char>) -> Seq<char> {
    replace_char(name, '.', '_')
}

fn strip_letter_prefix(name: Vec<char>) -> (r: Vec<char>)
    ensures
        r@ == without_letter_prefix(name@),
{
    match find_char(name.as_slice(), '_') {
        Some(i) => {
            let c = name[0];
            assert(split_once(name@, '_') == Some((name@.take(i as int), name@.skip(i + 1))));
            if i == 1 && (c as u32) < 0x80 && c != 'x' && c != 'y' && c != 'z' && i + 1 < name.len() {
                let mut rest: Vec<char> = Vec::new();
                let mut j: usize = i + 1;
                while j < name.len()
                    invariant
                        i + 1 <= j <= name@.len(),
                        rest@ == name@.subrange(i + 1, j as int),
                    decreases name@.len() - j,
                {
                    rest.push(name[j]);
                    j = j + 1;
                    assert(rest@ =~= name@.subrange(i + 1, j as int));
                }
                assert(rest@ =~= name@.skip(i + 1));
                rest
            } else {
                proof {
                    if i == 1 {
                        assert(name@.take(1)[0] == c);
                    }
                }
                name
            }
        },
        None => name,
    }
}

/// Rewrites a field's name as the Rust name of the field.
pub fn rust_field_name(name: &str) -> (r: String)
    requires
        fits_case_conversion(name@),
    ensures
        r@ == field_rust_name(name@),
{
    let chars = chars_of(name);
    let mut snake = name.len() != 2 && regex_is_match(MEMBER_NUMBER_PATTERN, name) != Some(true);
    if !snake && chars.len() > 0 {
        snake = is_uppercase(chars[0]);
    }
    let cased = if snake {
        chars_of(to_snake_case(name).as_str())
    } else {
        chars
    };
    let stripped = strip_letter_prefix(strip_letter_prefix(cased));
    let s = stripped.as_slice();
    if is_text(s, "type") {
        "r#type".to_owned()
    } else if is_text(s, "ref") {
        "reference".to_owned()
    } else if is_text(s, "move") {
        "r#move".to_owned()
    } else {
        string_of(s)
    }
}

/// Rewrites a type's name as its Rust name.
pub fn rust_type_ident(name: &str) -> (r: String)
    ensures
        r@ == type_rust_name(name@),
{
    let chars = chars_of(name);
    let replaced = replace_char_in(chars.as_slice(), '.', '_');
    string_of(replaced.as_slice())
}

/// The Rust type of a field of the type named `x`, or `None` where the name cannot
/// be converted (a fixed array or a pair whose parts the `regex` patterns do not
/// find, or a fixed array whose length is not a number that fits in a `usize`).
/// A part is always shorter than the name, since the pattern's own text lies
/// outside its groups; a part that were not would give `None` too.
pub open spec fn rust_type_name(x: Seq<char>) -> Option<Seq<char>>
    decreases x.len(),
{
    if x == "int8"@ || x == "int8_t"@ {
        Some("i8"@)
    } else if x == "int16"@ {
        Some("i16"@)
    } else if x == "int32"@ {
        Some("i32"@)
    } else if x == "int64"@ {
        Some("i64"@)
    } else if x == "char"@ || x == "uint8"@ || x == "uint8_t"@ {
        Some("u8"@)
    } else if x == "uint16"@ {
        Some("u16"@)
    } else if x == "uint32"@ || x == "uint32_t"@ {
        Some("u32"@)
    } else if x == "size_t"@ || x == "uint64"@ {
        Some("u64"@)
    } else if x == "float32"@ {
        Some("f32"@)
    } else if x == "float64"@ {
        Some("f64"@)
    } else if x == "bool"@ {
        Some("bool"@)
    } else if x == "ZString"@ {
        Some("EcoString"@)
    } else if has_prefix(x, "TArray<"@) {
        let rest = x.skip("TArray<"@.len() as int);
        let inner = if rest.len() > 0 {
            rest.drop_last()
        } else {
            rest
        };
        proof {
            reveal_strlit("TArray<");
        }
        match rust_type_name(inner) {
            Some(t) => Some("Vec<"@ + t + ">"@),
            None => None,
        }
    } else if has_prefix(x, "TFixedArray<"@) {
        match two_groups(regex_captures(FIXED_ARRAY_PARTS@, x)) {
            Some((a, b)) => if a.len() < x.len() {
                match (rust_type_name(a), parse_usize(b)) {
                    (Some(t), Some(n)) => Some("["@ + t + "; "@ + decimal(n) + "]"@),
                    _ => None,
                }
            } else {
                None
            },
            None => None,
        }
    } else if has_prefix(x, "TPair<"@) {
        match two_groups(regex_captures(PAIR_PARTS@, x)) {
            Some((a, b)) => if a.len() < x.len() && b.len() < x.len() {
                match (rust_type_name(a), rust_type_name(b)) {
                    (Some(ta), Some(tb)) => Some("("@ + ta + ", "@ + tb + ")"@),
                    _ => None,
                }
            } else {
                None
            },
            None => None,
        }
    } else if has_prefix(x, "ZHMPtrLen<"@) {
        let rest = x.skip("ZHMPtrLen<"@.len() as int);
        let inner = if rest.len() > 0 {
            rest.drop_last()
        } else {
            rest
        };
        proof {
            reveal_strlit("ZHMPtrLen<");
        }
        match rust_type_name(inner) {
            Some(t) => Some("ZHMPtrLen<"@ + t + ">"@),
            None => None,
        }
    } else {
        Some(replace_char(x, '.', '_'))
    }
}

/// `w` bits written in decimal, for the widths of the integer types.
proof fn lemma_width_decimal(w: nat)
    requires
        w == 8 || w == 16 || w == 32 || w == 64,
    ensures
        w == 8 ==> decimal(w) == seq!['8'],
        w == 16 ==> decimal(w) == seq!['1', '6'],
        w == 32 ==> decimal(w) == seq!['3', '2'],
        w == 64 ==> decimal(w) == seq!['6', '4'],
{
    reveal_with_fuel(decimal, 3);
    assert(digit_char(1) == '1' && digit_char(2) == '2' && digit_char(3) == '3' && digit_char(4) == '4'
        && digit_char(6) == '6' && digit_char(8) == '8');
    assert(decimal(1) =~= seq!['1']);
    assert(decimal(3) =~= seq!['3']);
    assert(decimal(6) =~= seq!['6']);
    if w == 8 {
        assert(decimal(w) =~= seq!['8']);
    } else if w == 16 {
        assert(decimal(w) =~= seq!['1', '6']);
    } else if w == 32 {
        assert(decimal(w) =~= seq!['3', '2']);
    } else {
        assert(decimal(w) =~= seq!['6', '4']);
    }
}

/// The names of fixed types that the conversion tells apart are different texts.
proof fn lemma_type_names_distinct()
    ensures
        "int32"@ != "int16"@,
        "int64"@ != "int16"@,
        "int64"@ != "int32"@,
        "uint8"@ != "int16"@,
        "uint8"@ != "int32"@,
        "uint8"@ != "int64"@,
        "uint16"@ != "int8_t"@,
        "uint32"@ != "int8_t"@,
        "uint32"@ != "uint16"@,
        "uint64"@ != "int8_t"@,
        "uint64"@ != "uint16"@,
        "uint64"@ != "uint32"@,
        "char"@ != "int8"@,
        "size_t"@ != "int8_t"@,
        "size_t"@ != "uint16"@,
        "size_t"@ != "uint32"@,
        "float32"@ != "uint8_t"@,
        "float64"@ != "uint8_t"@,
        "float64"@ != "float32"@,
        "bool"@ != "int8"@,
        "bool"@ != "char"@,
        "ZString"@ != "uint8_t"@,
        "ZString"@ != "float32"@,
        "ZString"@ != "float64"@,
{
    reveal_strlit("ZString");
    reveal_strlit("bool");
    reveal_strlit("char");
    reveal_strlit("float32");
    reveal_strlit("float64");
    reveal_strlit("int16");
    reveal_strlit("int32");
    reveal_strlit("int64");
    reveal_strlit("int8");
    reveal_strlit("int8_t");
    reveal_strlit("size_t");
    reveal_strlit("uint16");
    reveal_strlit("uint32");
    reveal_strlit("uint64");
    reveal_strlit("uint8");
    reveal_strlit("uint8_t");
    assert("int32"@[3] != "int16"@[3]);
    assert("int64"@[3] != "int16"@[3]);
    assert("int64"@[3] != "int32"@[3]);
    assert("uint8"@[0] != "int16"@[0]);
    assert("uint8"@[0] != "int32"@[0]);
    assert("uint8"@[0] != "int64"@[0]);
    assert("uint16"@[0] != "int8_t"@[0]);
    assert("uint32"@[0] != "int8_t"@[0]);
    assert("uint32"@[4] != "uint16"@[4]);
    assert("uint64"@[0] != "int8_t"@[0]);
    assert("uint64"@[4] != "uint16"@[4]);
    assert("uint64"@[4] != "uint32"@[4]);
    assert("char"@[0] != "int8"@[0]);
    assert("size_t"@[0] != "int8_t"@[0]);
    assert("size_t"@[0] != "uint16"@[0]);
    assert("size_t"@[0] != "uint32"@[0]);
    assert("float32"@[0] != "uint8_t"@[0]);
    assert("float64"@[0] != "uint8_t"@[0]);
    assert("float64"@[5] != "float32"@[5]);
    assert("bool"@[0] != "int8"@[0]);
    assert("bool"@[0] != "char"@[0]);
    assert("ZString"@[0] != "uint8_t"@[0]);
    assert("ZString"@[0] != "float32"@[0]);
    assert("ZString"@[0] != "float64"@[0]);
}

/// An integer field keeps its signedness and its width: the type `int<w>` is the
/// Rust type `i<w>` and `uint<w>` is `u<w>`, for each of the widths 8, 16, 32, 64.
pub proof fn lemma_integer_rust_types(w: nat)
    requires
        w == 8 || w == 16 || w == 32 || w == 64,
    ensures
        rust_type_name("int"@ + decimal(w)) == Some("i"@ + decimal(w)),
        rust_type_name("uint"@ + decimal(w)) == Some("u"@ + decimal(w)),
{
    reveal_strlit("int8");
    reveal_strlit("int8_t");
    reveal_strlit("int16");
    reveal_strlit("int32");
    reveal_strlit("int64");
    reveal_strlit("char");
    reveal_strlit("uint8");
    reveal_strlit("uint8_t");
    reveal_strlit("uint16");
    reveal_strlit("uint32");
    reveal_strlit("uint32_t");
    reveal_strlit("size_t");
    reveal_strlit("uint64");
    reveal_strlit("float32");
    reveal_strlit("float64");
    reveal_strlit("bool");
    reveal_strlit("ZString");
    reveal_strlit("i8");
    reveal_strlit("i16");
    reveal_strlit("i32");
    reveal_strlit("i64");
    reveal_strlit("u8");
    reveal_strlit("u16");
    reveal_strlit("u32");
    reveal_strlit("u64");
    reveal_strlit("f32");
    reveal_strlit("f64");
    reveal_strlit("EcoString");
    reveal_strlit("int");
    reveal_strlit("uint");
    reveal_strlit("float");
    reveal_strlit("i");
    reveal_strlit("u");
    reveal_strlit("f");
    reveal_strlit("TArray<");
    reveal_strlit("TFixedArray<");
    reveal_strlit("TPair<");
    reveal_strlit("ZHMPtrLen<");
    reveal_strlit("Vec<");
    reveal_strlit(">");
    lemma_width_decimal(w);
    lemma_type_names_distinct();
    let d = decimal(w);
    if w == 8 {
        assert("int"@ + d =~= "int8"@);
        assert("i"@ + d =~= "i8"@);
        assert("uint"@ + d =~= "uint8"@);
        assert("u"@ + d =~= "u8"@);
    } else if w == 16 {
        assert("int"@ + d =~= "int16"@);
        assert("i"@ + d =~= "i16"@);
        assert("uint"@ + d =~= "uint16"@);
        assert("u"@ + d =~= "u16"@);
    } else if w == 32 {
        assert("int"@ + d =~= "int32"@);
        assert("i"@ + d =~= "i32"@);
        assert("uint"@ + d =~= "uint32"@);
        assert("u"@ + d =~= "u32"@);
    } else {
        assert("int"@ + d =~= "int64"@);
        assert("i"@ + d =~= "i64"@);
        assert("uint"@ + d =~= "uint64"@);
        assert("u"@ + d =~= "u64"@);
    }
}

/// The other names of fixed types: the C names of integers keep their signedness
/// and width (`int8_t` is `i8`, `uint8_t` and `char` are `u8`, `uint32_t` is `u32`,
/// `size_t` is `u64`), a float keeps its width (`float<w>` is `f<w>`), a boolean is
/// `bool` and a `ZString` is an `EcoString`.
pub proof fn lemma_fixed_rust_types()
    ensures
        rust_type_name("int8_t"@) == Some("i"@ + decimal(8)),
        rust_type_name("uint8_t"@) == Some("u"@ + decimal(8)),
        rust_type_name("char"@) == Some("u"@ + decimal(8)),
        rust_type_name("uint32_t"@) == Some("u"@ + decimal(32)),
        rust_type_name("size_t"@) == Some("u"@ + decimal(64)),
        rust_type_name("float"@ + decimal(32)) == Some("f"@ + decimal(32)),
        rust_type_name("float"@ + decimal(64)) == Some("f"@ + decimal(64)),
        rust_type_name("bool"@) == Some("bool"@),
        rust_type_name("ZString"@) == Some("EcoString"@),
{
    reveal_strlit("int8");
    reveal_strlit("int8_t");
    reveal_strlit("int16");
    reveal_strlit("int32");
    reveal_strlit("int64");
    reveal_strlit("char");
    reveal_strlit("uint8");
    reveal_strlit("uint8_t");
    reveal_strlit("uint16");
    reveal_strlit("uint32");
    reveal_strlit("uint32_t");
    reveal_strlit("size_t");
    reveal_strlit("uint64");
    reveal_strlit("float32");
    reveal_strlit("float64");
    reveal_strlit("bool");
    reveal_strlit("ZString");
    reveal_strlit("i8");
    reveal_strlit("i16");
    reveal_strlit("i32");
    reveal_strlit("i64");
    reveal_strlit("u8");
    reveal_strlit("u16");
    reveal_strlit("u32");
    reveal_strlit("u64");
    reveal_strlit("f32");
    reveal_strlit("f64");
    reveal_strlit("EcoString");
    reveal_strlit("int");
    reveal_strlit("uint");
    reveal_strlit("float");
    reveal_strlit("i");
    reveal_strlit("u");
    reveal_strlit("f");
    reveal_strlit("TArray<");
    reveal_strlit("TFixedArray<");
    reveal_strlit("TPair<");
    reveal_strlit("ZHMPtrLen<");
    reveal_strlit("Vec<");
    reveal_strlit(">");
    lemma_width_decimal(8);
    lemma_width_decimal(32);
    lemma_width_decimal(64);
    lemma_type_names_distinct();
    assert("i"@ + decimal(8) =~= "i8"@);
    assert("u"@ + decimal(8) =~= "u8"@);
    assert("u"@ + decimal(32) =~= "u32"@);
    assert("u"@ + decimal(64) =~= "u64"@);
    assert("float"@ + decimal(32) =~= "float32"@);
    assert("float"@ + decimal(64) =~= "float64"@);
    assert("f"@ + decimal(32) =~= "f32"@);
    assert("f"@ + decimal(64) =~= "f64"@);
}

/// An array of a field type is a vector of its Rust type: `TArray<t>` is
/// `Vec<r>` where `t` is the Rust type `r`, and cannot be converted where `t` cannot.
pub proof fn lemma_array_rust_type(inner: Seq<char>)
    ensures
        rust_type_name("TArray<"@ + inner + ">"@) == match rust_type_name(inner) {
            Some(t) => Some("Vec<"@ + t + ">"@),
            None => None::<Seq<char>>,
        },
{
    reveal_strlit("int8");
    reveal_strlit("int8_t");
    reveal_strlit("int16");
    reveal_strlit("int32");
    reveal_strlit("int64");
    reveal_strlit("char");
    reveal_strlit("uint8");
    reveal_strlit("uint8_t");
    reveal_strlit("uint16");
    reveal_strlit("uint32");
    reveal_strlit("uint32_t");
    reveal_strlit("size_t");
    reveal_strlit("uint64");
    reveal_strlit("float32");
    reveal_strlit("float64");
    reveal_strlit("bool");
    reveal_strlit("ZString");
    reveal_strlit("TArray<");
    reveal_strlit(">");
    let x = "TArray<"@ + inner + ">"@;
    assert(x[0] == 'T');
    assert(x[0] != "int8"@[0] || x.len() != "int8"@.len());
    assert(x[0] != "int8_t"@[0] || x.len() != "int8_t"@.len());
    assert(x[0] != "int16"@[0] || x.len() != "int16"@.len());
    assert(x[0] != "int32"@[0] || x.len() != "int32"@.len());
    assert(x[0] != "int64"@[0] || x.len() != "int64"@.len());
    assert(x[0] != "char"@[0] || x.len() != "char"@.len());
    assert(x[0] != "uint8"@[0] || x.len() != "uint8"@.len());
    assert(x[0] != "uint8_t"@[0] || x.len() != "uint8_t"@.len());
    assert(x[0] != "uint16"@[0] || x.len() != "uint16"@.len());
    assert(x[0] != "uint32"@[0] || x.len() != "uint32"@.len());
    assert(x[0] != "uint32_t"@[0] || x.len() != "uint32_t"@.len());
    assert(x[0] != "size_t"@[0] || x.len() != "size_t"@.len());
    assert(x[0] != "uint64"@[0] || x.len() != "uint64"@.len());
    assert(x[0] != "float32"@[0] || x.len() != "float32"@.len());
    assert(x[0] != "float64"@[0] || x.len() != "float64"@.len());
    assert(x[0] != "bool"@[0] || x.len() != "bool"@.len());
    assert(x[0] != "ZString"@[0] || x.len() != "ZString"@.len());
    assert(x.take(7) =~= "TArray<"@);
    assert(x.skip(7).drop_last() =~= inner);
}

/// A pointer with a length of a field type keeps the pointer-with-length form
/// around the element's Rust type: `ZHMPtrLen<t>` is `ZHMPtrLen<r>` where `t` is
/// the Rust type `r`, and cannot be converted where `t` cannot.
pub proof fn lemma_ptr_len_rust_type(inner: Seq<char>)
    ensures
        rust_type_name("ZHMPtrLen<"@ + inner + ">"@) == match rust_type_name(inner) {
            Some(t) => Some("ZHMPtrLen<"@ + t + ">"@),
            None => None::<Seq<char>>,
        },
{
    reveal_strlit("int8");
    reveal_strlit("int8_t");
    reveal_strlit("int16");
    reveal_strlit("int32");
    reveal_strlit("int64");
    reveal_strlit("char");
    reveal_strlit("uint8");
    reveal_strlit("uint8_t");
    reveal_strlit("uint16");
    reveal_strlit("uint32");
    reveal_strlit("uint32_t");
    reveal_strlit("size_t");
    reveal_strlit("uint64");
    reveal_strlit("float32");
    reveal_strlit("float64");
    reveal_strlit("bool");
    reveal_strlit("ZString");
    reveal_strlit("TArray<");
    reveal_strlit("TFixedArray<");
    reveal_strlit("TPair<");
    reveal_strlit("ZHMPtrLen<");
    reveal_strlit(">");
    let x = "ZHMPtrLen<"@ + inner + ">"@;
    assert(x[0] == 'Z' && x[1] == 'H');
    assert(x[0] != "int8"@[0] || x.len() != "int8"@.len());
    assert(x[0] != "int8_t"@[0] || x.len() != "int8_t"@.len());
    assert(x[0] != "int16"@[0] || x.len() != "int16"@.len());
    assert(x[0] != "int32"@[0] || x.len() != "int32"@.len());
    assert(x[0] != "int64"@[0] || x.len() != "int64"@.len());
    assert(x[0] != "char"@[0] || x.len() != "char"@.len());
    assert(x[0] != "uint8"@[0] || x.len() != "uint8"@.len());
    assert(x[0] != "uint8_t"@[0] || x.len() != "uint8_t"@.len());
    assert(x[0] != "uint16"@[0] || x.len() != "uint16"@.len());
    assert(x[0] != "uint32"@[0] || x.len() != "uint32"@.len());
    assert(x[0] != "uint32_t"@[0] || x.len() != "uint32_t"@.len());
    assert(x[0] != "size_t"@[0] || x.len() != "size_t"@.len());
    assert(x[0] != "uint64"@[0] || x.len() != "uint64"@.len());
    assert(x[0] != "float32"@[0] || x.len() != "float32"@.len());
    assert(x[0] != "float64"@[0] || x.len() != "float64"@.len());
    assert(x[0] != "bool"@[0] || x.len() != "bool"@.len());
    assert(x[1] != "ZString"@[1] || x.len() != "ZString"@.len());
    assert(x.take(7)[0] != "TArray<"@[0]);
    assert(x.take(12)[0] != "TFixedArray<"@[0] || x.len() < 12);
    assert(x.take(6)[0] != "TPair<"@[0]);
    assert(x.take(10) =~= "ZHMPtrLen<"@);
    assert(x.skip(10).drop_last() =~= inner);
}

fn push_text(v: &mut Vec<char>, t: &str)
    ensures
        final(v)@ == old(v)@ + t@,
{
    let tc = chars_of(t);
    push_chars(v, tc.as_slice());
}

fn push_chars(v: &mut Vec<char>, t: &[char])
    ensures
        final(v)@ == old(v)@ + t@,
{
    let ghost start = v@;
    let mut i: usize = 0;
    while i < t.len()
        invariant
            i <= t@.len(),
            v@ == start + t@.take(i as int),
        decreases t@.len() - i,
    {
        v.push(t[i]);
        i = i + 1;
        assert(v@ =~= start + t@.take(i as int));
    }
    assert(t@.take(t@.len() as int) =~= t@);
}

fn without_first_and_last(x: &[char], k: usize) -> (r: Vec<char>)
    requires
        k <= x@.len(),
    ensures
        r@ == (if x@.skip(k as int).len() > 0 {
            x@.skip(k as int).drop_last()
        } else {
            x@.skip(k as int)
        }),
{
    let end = if k < x.len() {
        x.len() - 1
    } else {
        k
    };
    let mut v: Vec<char> = Vec::new();
    let mut i: usize = k;
    while i < end
        invariant
            k <= i <= end <= x@.len(),
            v@ == x@.subrange(k as int, i as int),
        decreases end - i,
    {
        v.push(x[i]);
        i = i + 1;
        assert(v@ =~= x@.subrange(k as int, i as int));
    }
    assert(x@.skip(k as int).drop_last() =~= x@.subrange(k as int, x@.len() - 1) || k == x@.len());
    assert(x@.skip(k as int) =~= x@.subrange(k as int, x@.len() as int));
    v
}

/// Converts the type named `x` to the Rust type of a field; `None` where the name
/// cannot be converted.
pub fn rust_type(x: &[char]) -> (r: Option<Vec<char>>)
    ensures
        r matches Some(t) ==> rust_type_name(x@) == Some(t@),
        r is None ==> rust_type_name(x@) is None,
    decreases x@.len(),
{
    let mut out: Vec<char> = Vec::new();
    if is_text(x, "int8") || is_text(x, "int8_t") {
        push_text(&mut out, "i8");
    } else if is_text(x, "int16") {
        push_text(&mut out, "i16");
    } else if is_text(x, "int32") {
        push_text(&mut out, "i32");
    } else if is_text(x, "int64") {
        push_text(&mut out, "i64");
    } else if is_text(x, "char") || is_text(x, "uint8") || is_text(x, "uint8_t") {
        push_text(&mut out, "u8");
    } else if is_text(x, "uint16") {
        push_text(&mut out, "u16");
    } else if is_text(x, "uint32") || is_text(x, "uint32_t") {
        push_text(&mut out, "u32");
    } else if is_text(x, "size_t") || is_text(x, "uint64") {
        push_text(&mut out, "u64");
    } else if is_text(x, "float32") {
        push_text(&mut out, "f32");
    } else if is_text(x, "float64") {
        push_text(&mut out, "f64");
    } else if is_text(x, "bool") {
        push_text(&mut out, "bool");
    } else if is_text(x, "ZString") {
        push_text(&mut out, "EcoString");
    } else if starts_with_text(x, "TArray<") {
        proof {
            reveal_strlit("TArray<");
        }
        let inner = without_first_and_last(x, 7);
        let t = rust_type(inner.as_slice())?;
        push_text(&mut out, "Vec<");
        push_chars(&mut out, t.as_slice());
        push_text(&mut out, ">");
    } else if starts_with_text(x, "TFixedArray<") {
        let name = string_of(x);
        let (a, b) = match match_two(FIXED_ARRAY_PARTS, name.as_str()) {
            Some(parts) => parts,
            None => {
                return None;
            },
        };
        let a = chars_of(a.as_str());
        let b = chars_of(b.as_str());
        if a.len() >= x.len() {
            return None;
        }
        let t = rust_type(a.as_slice())?;
        let n = parse_decimal(b.as_slice())?;
        push_text(&mut out, "[");
        push_chars(&mut out, t.as_slice());
        push_text(&mut out, "; ");
        let digits = decimal_chars(n as u64);
        push_chars(&mut out, digits.as_slice());
        push_text(&mut out, "]");
    } else if starts_with_text(x, "TPair<") {
        let name = string_of(x);
        let (a, b) = match match_two(PAIR_PARTS, name.as_str()) {
            Some(parts) => parts,
            None => {
                return None;
            },
        };
        let a = chars_of(a.as_str());
        let b = chars_of(b.as_str());
        if a.len() >= x.len() || b.len() >= x.len() {
            return None;
        }
        let ta = rust_type(a.as_slice())?;
        let tb = rust_type(b.as_slice())?;
        push_text(&mut out, "(");
        push_chars(&mut out, ta.as_slice());
        push_text(&mut out, ", ");
        push_chars(&mut out, tb.as_slice());
        push_text(&mut out, ")");
    } else if starts_with_text(x, "ZHMPtrLen<") {
        proof {
            reveal_strlit("ZHMPtrLen<");
        }
        let inner = without_first_and_last(x, 10);
        let t = rust_type(inner.as_slice())?;
        push_text(&mut out, "ZHMPtrLen<");
        push_chars(&mut out, t.as_slice());
        push_text(&mut out, ">");
    } else {
        out = replace_char_in(x, '.', '_');
    }
    assert(rust_type_name(x@) == Some(out@));
    Some(out)
}

/// Whether `s` holds no lowercase ASCII letter, which is when every character of
/// it is uppercase or not an ASCII letter.
pub open spec fn lacks_ascii_lowercase(s: Seq<char>) -> bool {
    forall|i: int| 0 <= i < s.len() ==> !#[trigger] is_ascii_lowercase(s[i])
}

/// A variant's name in the case of Rust: rewritten in Pascal case where it holds no
/// lowercase ASCII letter.
pub open spec fn variant_case(s: Seq<char>) -> Seq<char> {
    if lacks_ascii_lowercase(s) {
        pascal_case(s)
    } else {
        s
    }
}

/// The part of a name before its first `_`, if it has one.
pub open spec fn underscore_prefix(name: Seq<char>) -> Option<Seq<char>> {
    match split_once(name, '_') {
        Some((p, _)) => Some(p),
        None => None,
    }
}

/// The prefix that every one of `names` has before its first `_`, if they all have
/// one and it is the same.
pub open spec fn common_prefix(names: Seq<Seq<char>>) -> Option<Seq<char>> {
    if names.len() > 0 && (forall|i: int|
        0 <= i < names.len() ==> underscore_prefix(#[trigger] names[i]) == underscore_prefix(
            names[0],
        )) && underscore_prefix(names[0]) is Some {
        underscore_prefix(names[0])
    } else {
        None
    }
}

/// Where the search for `c` from `i` on stops: at the first `c` from `i` on, or at
/// -1 where there is none.
proof fn lemma_index_of_from(s: Seq<char>, c: char, i: int)
    requires
        0 <= i,
    ensures
        index_of_from(s, c, i) == -1 ==> forall|k: int| i <= k < s.len() ==> s[k] != c,
        index_of_from(s, c, i) != -1 ==> i <= index_of_from(s, c, i) < s.len() && s[index_of_from(
            s,
            c,
            i,
        )] == c && forall|k: int| i <= k < index_of_from(s, c, i) ==> s[k] != c,
    decreases s.len() - i,
{
    if i < s.len() && s[i] != c {
        lemma_index_of_from(s, c, i + 1);
    }
}

/// A name whose first `_` is at `m` has the part before it as its prefix.
proof fn lemma_prefix_before_first_underscore(name: Seq<char>, m: int)
    requires
        0 <= m < name.len(),
        name[m] == '_',
        forall|k: int| 0 <= k < m ==> name[k] != '_',
    ensures
        underscore_prefix(name) == Some(name.take(m)),
{
    lemma_index_of_from(name, '_', 0);
    let r = index_of(name, '_');
    assert(r != -1);
    assert(!(r < m)) by {
        if r < m {
            assert(name[r] != '_');
        }
    }
    assert(!(r > m));
}

/// The prefix of a name is the part before its first `_`: a name with a prefix `p`
/// is `p`, a `_`, and more, and `p` holds no `_`.
proof fn lemma_underscore_prefix_shape(name: Seq<char>)
    ensures
        underscore_prefix(name) matches Some(p) ==> p.len() < name.len() && name.take(p.len() as int)
            == p && name[p.len() as int] == '_' && forall|k: int| 0 <= k < p.len() ==> p[k] != '_',
{
    lemma_index_of_from(name, '_', 0);
    let m = index_of(name, '_');
    if m != -1 {
        assert(name.take(m).len() == m);
        assert forall|k: int| 0 <= k < m implies name.take(m)[k] != '_' by {
            assert(name.take(m)[k] == name[k]);
        }
    }
}

/// The prefix common to the variants' names is the text that every name starts
/// with, followed by a `_`, and that holds no `_`: where there is a prefix, every
/// name is that prefix, a `_`, and more.
pub proof fn lemma_common_prefix_is_shared(names: Seq<Seq<char>>)
    ensures
        common_prefix(names) matches Some(p) ==> names.len() > 0 && (forall|k: int|
            0 <= k < p.len() ==> p[k] != '_') && forall|i: int|
            0 <= i < names.len() ==> (#[trigger] names[i]).len() > p.len() && names[i].take(
                p.len() as int,
            ) == p && names[i][p.len() as int] == '_',
{
    if common_prefix(names) is Some {
        let p = common_prefix(names)->Some_0;
        lemma_underscore_prefix_shape(names[0]);
        assert forall|i: int| 0 <= i < names.len() implies (#[trigger] names[i]).len() > p.len()
            && names[i].take(p.len() as int) == p && names[i][p.len() as int] == '_' by {
            assert(underscore_prefix(names[i]) == underscore_prefix(names[0]));
            lemma_underscore_prefix_shape(names[i]);
        }
    }
}

/// Where every one of the variants' names starts with the same text `p`, holding no
/// `_`, followed by a `_`, that text is their common prefix.
pub proof fn lemma_shared_prefix_is_common(names: Seq<Seq<char>>, p: Seq<char>)
    requires
        names.len() > 0,
        forall|k: int| 0 <= k < p.len() ==> p[k] != '_',
        forall|i: int|
            0 <= i < names.len() ==> (#[trigger] names[i]).len() > p.len() && names[i].take(
                p.len() as int,
            ) == p && names[i][p.len() as int] == '_',
    ensures
        common_prefix(names) == Some(p),
{
    assert forall|i: int| 0 <= i < names.len() implies underscore_prefix(#[trigger] names[i]) == Some(p) by {
        let n = names[i];
        let m = p.len() as int;
        assert forall|k: int| 0 <= k < m implies n[k] != '_' by {
            assert(n.take(m)[k] == n[k]);
        }
        lemma_prefix_before_first_underscore(n, m);
    }
    assert(underscore_prefix(names[0]) == Some(p));
}

/// The Rust name of an enum's variant, given the prefix common to the enum's
/// variants: without that prefix and the underscores after it, and with an
/// underscore before it where it would start with a digit.
pub open spec fn variant_rust_name(prefix: Option<Seq<char>>, name: Seq<char>) -> Seq<char> {
    match prefix {
        Some(p) => {
            let n = trim_start_text(trim_start_text(name, p), seq!['_']);
            if n.len() > 0 && is_ascii_digit(n[0]) {
                seq!['_'] + variant_case(n)
            } else {
                variant_case(n)
            }
        },
        None => variant_case(name),
    }
}

fn has_no_ascii_lowercase(s: &[char]) -> (r: bool)
    ensures
        r == lacks_ascii_lowercase(s@),
{
    let mut i: usize = 0;
    while i < s.len()
        invariant
            i <= s@.len(),
            forall|j: int| 0 <= j < i ==> !#[trigger] is_ascii_lowercase(s@[j]),
        decreases s@.len() - i,
    {
        if 'a' <= s[i] && s[i] <= 'z' {
            assert(is_ascii_lowercase(s@[i as int]));
            return false;
        }
        i = i + 1;
    }
    true
}

fn cased_variant(s: &[char]) -> (r: Vec<char>)
    requires
        fits_case_conversion(s@),
    ensures
        r@ == variant_case(s@),
{
    if has_no_ascii_lowercase(s) {
        let text = string_of(s);
        chars_of(to_pascal_case(text.as_str()).as_str())
    } else {
        let mut v: Vec<char> = Vec::new();
        push_chars(&mut v, s);
        assert(v@ =~= s@);
        v
    }
}

/// The part of `name` before its first `_`, if it has one.
fn prefix_of(name: &[char]) -> (r: Option<Vec<char>>)
    ensures
        r matches Some(p) ==> underscore_prefix(name@) == Some(p@),
        r is None ==> underscore_prefix(name@) is None,
{
    match find_char(name, '_') {
        Some(i) => {
            let mut v: Vec<char> = Vec::new();
            let mut j: usize = 0;
            while j < i
                invariant
                    j <= i < name@.len(),
                    v@ == name@.take(j as int),
                decreases i - j,
            {
                v.push(name[j]);
                j = j + 1;
                assert(v@ =~= name@.take(j as int));
            }
            Some(v)
        },
        None => None,
    }
}

/// The prefix common to the names of an enum's variants.
pub fn common_variant_prefix(names: &Vec<Vec<char>>) -> (r: Option<Vec<char>>)
    requires
        names@.len() > 0,
    ensures
        r matches Some(p) ==> common_prefix(names@.map_values(|n: Vec<char>| n@)) == Some(p@),
        r is None ==> common_prefix(names@.map_values(|n: Vec<char>| n@)) is None,
        r matches Some(p) ==> (forall|k: int| 0 <= k < p@.len() ==> p@[k] != '_') && forall|i: int|
            0 <= i < names@.len() ==> (#[trigger] names@[i])@.len() > p@.len() && names@[i]@.take(
                p@.len() as int,
            ) == p@ && names@[i]@[p@.len() as int] == '_',
{
    let ghost views = names@.map_values(|n: Vec<char>| n@);
    let first = prefix_of(names[0].as_slice());
    match first {
        None => {
            assert(views[0] == names@[0]@);
            None
        },
        Some(p) => {
            let mut i: usize = 1;
            while i < names.len()
                invariant
                    1 <= i <= names@.len(),
                    views == names@.map_values(|n: Vec<char>| n@),
                    underscore_prefix(views[0]) == Some(p@),
                    forall|j: int|
                        0 <= j < i ==> underscore_prefix(#[trigger] views[j]) == Some(p@),
                decreases names@.len() - i,
            {
                let q = prefix_of(names[i].as_slice());
                assert(views[i as int] == names@[i as int]@);
                match q {
                    Some(q) => {
                        if !chars_eq(q.as_slice(), p.as_slice()) {
                            return None;
                        }
                    },
                    None => {
                        return None;
                    },
                }
                i = i + 1;
            }
            proof {
                assert(common_prefix(views) == Some(p@));
                lemma_common_prefix_is_shared(views);
                assert forall|i: int| 0 <= i < names@.len() implies (#[trigger] names@[i])@.len()
                    > p@.len() && names@[i]@.take(p@.len() as int) == p@ && names@[i]@[p@.len() as int]
                    == '_' by {
                    assert(views[i] == names@[i]@);
                }
            }
            Some(p)
        },
    }
}

/// Rewrites a variant's name as its Rust name.
pub fn rust_variant_name(prefix: &Option<Vec<char>>, name: &[char]) -> (r: String)
    requires
        fits_case_conversion(name@),
    ensures
        r@ == variant_rust_name(
            match prefix {
                Some(p) => Some(p@),
                None => None,
            },
            name@,
        ),
{
    match prefix {
        Some(p) => {
            let once = trim_start_chars(name, p.as_slice());
            let underscore: Vec<char> = vec!['_'];
            let n = trim_start_chars(once.as_slice(), underscore.as_slice());
            proof {
                assert(underscore@ =~= seq!['_']);
                lemma_trim_start_suffix(name@, p@);
                lemma_trim_start_suffix(once@, seq!['_']);
                lemma_fits_suffix(name@, name@.len() - once@.len());
                lemma_fits_suffix(once@, once@.len() - n@.len());
            }
            let cased = cased_variant(n.as_slice());
            if n.len() > 0 && '0' <= n[0] && n[0] <= '9' {
                let mut v: Vec<char> = vec!['_'];
                push_chars(&mut v, cased.as_slice());
                assert(v@ =~= seq!['_'] + cased@);
                string_of(v.as_slice())
            } else {
                string_of(cased.as_slice())
            }
        },
        None => {
            let cased = cased_variant(name);
            string_of(cased.as_slice())
        },
    }
}

} // verus!
