//! The symbol vocabulary shared by every component: what kind of entity an
//! occurrence names, how the occurrence uses it, and the rule records that
//! drive extraction.

use crate::text::{
    ascii_lower, ascii_upper, concat2, concat3, contains_sub, is_ascii_upper, occurs_from,
    push_char, starts_with_sub, str_eq, to_ascii_lower, to_ascii_upper,
};
use vstd::prelude::*;
use vstd::string::{StrSliceExecFns, StringExecFns};

verus! {

/// The category of symbol an occurrence names.
#[derive(Clone, Copy, Debug, PartialEq, Eq, Structural)]
pub enum EntityType {
    Command,
    Event,
    Struct,
    Enum,
    Interface,
}

/// How one occurrence uses its symbol.
#[derive(Clone, Copy, Debug, PartialEq, Eq, Structural)]
pub enum Behavior {
    Definition,
    Call,
    Emit,
    Listen,
}

/// Where a rule takes the symbol name from.
#[derive(Clone, Debug)]
pub enum ArgSource {
    /// The name is the string literal at this argument position.
    Index { index: usize },
    /// The name is the name of the function itself.
    FunctionName,
}

/// One extraction rule: a callable name and what a matching call produces.
#[derive(Clone, Debug)]
pub struct Rule {
    pub name: String,
    pub entity: EntityType,
    pub behavior: Behavior,
    pub args: ArgSource,
}

/// Rules for the backend dialect.
#[derive(Clone, Debug)]
pub struct BackendSyntax {
    pub attributes: Vec<Rule>,
    pub functions: Vec<Rule>,
}

/// Rules for the frontend dialect.
#[derive(Clone, Debug)]
pub struct FrontendSyntax {
    pub functions: Vec<Rule>,
}

/// The full rule configuration.
#[derive(Clone, Debug)]
pub struct CommandSyntax {
    pub frontend: FrontendSyntax,
    pub backend: BackendSyntax,
}

/// A file-scoped extraction failure.
#[derive(Clone, Debug)]
pub enum ParseError {
    /// The grammar for the dialect could not be set up.
    LanguageError(String),
    /// The file's text could not be parsed.
    SyntaxError(String),
    /// A structural query over the parsed tree failed.
    QueryError(String),
}

pub type ParseResult<T> = Result<T, ParseError>;

/// The camel-case spelling of a snake-case name: an underscore is
/// dropped and bumps the following letter to upper case.
pub open spec fn snake_to_camel_step(s: Seq<char>, bump: bool) -> Seq<char>
    decreases s.len(),
{
    if s.len() == 0 {
        Seq::empty()
    } else if s[0] == '_' {
        snake_to_camel_step(s.drop_first(), true)
    } else if bump {
        seq![ascii_upper(s[0])] + snake_to_camel_step(s.drop_first(), false)
    } else {
        seq![s[0]] + snake_to_camel_step(s.drop_first(), false)
    }
}

pub open spec fn snake_to_camel_spec(s: Seq<char>) -> Seq<char> {
    snake_to_camel_step(s, false)
}

/// Translates a backend snake_case name to the frontend camelCase
/// convention.
pub fn snake_to_camel(s: &str) -> (r: String)
    ensures
        r@ == snake_to_camel_spec(s@),
{
    let n = s.unicode_len();
    let mut out = String::new();
    let mut bump = false;
    let mut i: usize = 0;
    proof {
        assert(s@.skip(0) =~= s@);
        assert(out@ + snake_to_camel_step(s@, false) =~= snake_to_camel_step(s@, false));
    }
    while i < n
        invariant
            n == s@.len(),
            0 <= i <= n,
            snake_to_camel_step(s@, false) == out@ + snake_to_camel_step(
                s@.skip(i as int),
                bump,
            ),
        decreases n - i,
    {
        let c = s.get_char(i);
        proof {
            assert(s@.skip(i as int)[0] == s@[i as int]);
            assert(s@.skip(i as int).drop_first() =~= s@.skip(i + 1));
        }
        if c == '_' {
            bump = true;
        } else if bump {
            push_char(&mut out, to_ascii_upper(c));
            bump = false;
            proof {
                assert(out@ + snake_to_camel_step(s@.skip(i + 1), false) =~= (out@.drop_last()
                    + seq![ascii_upper(c)]) + snake_to_camel_step(s@.skip(i + 1), false));
            }
        } else {
            push_char(&mut out, c);
            proof {
                assert(out@ + snake_to_camel_step(s@.skip(i + 1), false) =~= (out@.drop_last()
                    + seq![c]) + snake_to_camel_step(s@.skip(i + 1), false));
            }
        }
        i += 1;
    }
    proof {
        assert(s@.skip(n as int).len() == 0);
        assert(out@ + Seq::<char>::empty() =~= out@);
    }
    out
}

/// The snake_case spelling of a camelCase name: an upper-case letter
/// becomes an underscore followed by its lower-case form.
pub open spec fn camel_to_snake_spec(s: Seq<char>) -> Seq<char>
    decreases s.len(),
{
    if s.len() == 0 {
        Seq::empty()
    } else if is_ascii_upper(s[0]) {
        seq!['_', ascii_lower(s[0])] + camel_to_snake_spec(s.drop_first())
    } else {
        seq![s[0]] + camel_to_snake_spec(s.drop_first())
    }
}

/// Translates a frontend camelCase name to the backend snake_case
/// convention.
pub fn camel_to_snake(s: &str) -> (r: String)
    ensures
        r@ == camel_to_snake_spec(s@),
{
    let n = s.unicode_len();
    let mut out = String::new();
    let mut i: usize = 0;
    proof {
        assert(s@.skip(0) =~= s@);
        assert(out@ + camel_to_snake_spec(s@) =~= camel_to_snake_spec(s@));
    }
    while i < n
        invariant
            n == s@.len(),
            0 <= i <= n,
            camel_to_snake_spec(s@) == out@ + camel_to_snake_spec(s@.skip(i as int)),
        decreases n - i,
    {
        let c = s.get_char(i);
        proof {
            assert(s@.skip(i as int)[0] == s@[i as int]);
            assert(s@.skip(i as int).drop_first() =~= s@.skip(i + 1));
        }
        let low = to_ascii_lower(c);
        if low != c {
            push_char(&mut out, '_');
            push_char(&mut out, low);
            proof {
                assert(out@ + camel_to_snake_spec(s@.skip(i + 1)) =~= (out@.drop_last().drop_last()
                    + seq!['_', ascii_lower(c)]) + camel_to_snake_spec(s@.skip(i + 1)));
            }
        } else {
            push_char(&mut out, c);
            proof {
                assert(out@ + camel_to_snake_spec(s@.skip(i + 1)) =~= (out@.drop_last() + seq![c])
                    + camel_to_snake_spec(s@.skip(i + 1)));
            }
        }
        i += 1;
    }
    proof {
        assert(s@.skip(n as int).len() == 0);
        assert(out@ + Seq::<char>::empty() =~= out@);
    }
    out
}

/// Whether a backend type name is a primitive number.
pub open spec fn is_rust_number(s: Seq<char>) -> bool {
    ||| s == "i8"@
    ||| s == "i16"@
    ||| s == "i32"@
    ||| s == "i64"@
    ||| s == "i128"@
    ||| s == "isize"@
    ||| s == "u8"@
    ||| s == "u16"@
    ||| s == "u32"@
    ||| s == "u64"@
    ||| s == "u128"@
    ||| s == "usize"@
    ||| s == "f32"@
    ||| s == "f64"@
}

/// Whether `s` is `prefix` + ... + `>`.
pub open spec fn wrapped_in(s: Seq<char>, prefix: Seq<char>) -> bool {
    &&& s.len() > prefix.len()
    &&& s.take(prefix.len() as int) == prefix
    &&& s[s.len() - 1] == '>'
}

/// The text between `prefix` and the trailing `>`.
pub open spec fn inner_of(s: Seq<char>, prefix: Seq<char>) -> Seq<char> {
    s.subrange(prefix.len() as int, s.len() - 1)
}

/// The position of the first comma at angle-bracket depth zero, at or
/// after `i`, or the length if there is none.
pub open spec fn top_comma_from(s: Seq<char>, i: int, depth: int) -> int
    decreases s.len() - i,
{
    if i < 0 || i >= s.len() {
        s.len() as int
    } else if s[i] == ',' && depth == 0 {
        i
    } else if s[i] == '<' {
        top_comma_from(s, i + 1, depth + 1)
    } else if s[i] == '>' {
        top_comma_from(s, i + 1, depth - 1)
    } else {
        top_comma_from(s, i + 1, depth)
    }
}

/// The first top-level comma position never leaves the text.
pub proof fn lemma_top_comma_bounds(s: Seq<char>, i: int, depth: int)
    requires
        0 <= i <= s.len(),
    ensures
        i <= top_comma_from(s, i, depth) <= s.len(),
    decreases s.len() - i,
{
    if i < s.len() {
        if s[i] == ',' && depth == 0 {
        } else if s[i] == '<' {
            lemma_top_comma_bounds(s, i + 1, depth + 1);
        } else if s[i] == '>' {
            lemma_top_comma_bounds(s, i + 1, depth - 1);
        } else {
            lemma_top_comma_bounds(s, i + 1, depth);
        }
    }
}

/// Drops one leading space, if any.
pub open spec fn skip_space(s: Seq<char>) -> Seq<char> {
    if s.len() > 0 && s[0] == ' ' {
        s.drop_first()
    } else {
        s
    }
}

/// The success type of a backend `Result` type text, or the text itself
/// when it is not a `Result`.
pub open spec fn result_ok_spec(s: Seq<char>) -> Seq<char> {
    if wrapped_in(s, "Result<"@) {
        let inner = inner_of(s, "Result<"@);
        inner.take(top_comma_from(inner, 0, 0))
    } else {
        s
    }
}

/// The frontend spelling of a backend type: primitive leaves map
/// exactly, arrays, optionals and maps recurse into their element
/// types, a `Result` maps to its success type, and anything else is
/// beyond the primitive map.
pub open spec fn map_value_of(inner: Seq<char>) -> Seq<char> {
    let cut = top_comma_from(inner, 0, 0);
    if cut < inner.len() {
        skip_space(inner.skip(cut + 1))
    } else {
        Seq::empty()
    }
}

pub open spec fn rust_ty_to_ts(s: Seq<char>) -> Seq<char>
    decreases s.len(),
    via rust_ty_to_ts_decreases
{
    if s == "String"@ || s == "str"@ || s == "&str"@ {
        "string"@
    } else if is_rust_number(s) {
        "number"@
    } else if s == "bool"@ {
        "boolean"@
    } else if wrapped_in(s, "Vec<"@) {
        rust_ty_to_ts(inner_of(s, "Vec<"@)) + "[]"@
    } else if wrapped_in(s, "Option<"@) {
        rust_ty_to_ts(inner_of(s, "Option<"@)) + " | null"@
    } else if wrapped_in(s, "Result<"@) {
        let inner = inner_of(s, "Result<"@);
        rust_ty_to_ts(inner.take(top_comma_from(inner, 0, 0)))
    } else if wrapped_in(s, "HashMap<"@) {
        "Record<string, "@ + rust_ty_to_ts(map_value_of(inner_of(s, "HashMap<"@))) + ">"@
    } else {
        "any"@
    }
}

#[via_fn]
proof fn rust_ty_to_ts_decreases(s: Seq<char>) {
    if wrapped_in(s, "Result<"@) {
        let inner = inner_of(s, "Result<"@);
        lemma_top_comma_bounds(inner, 0, 0);
    } else if wrapped_in(s, "HashMap<"@) {
        let inner = inner_of(s, "HashMap<"@);
        lemma_top_comma_bounds(inner, 0, 0);
    }
}

/// The backend spelling of a frontend type: the inverse direction of
/// the primitive map, recursing into arrays, optionals and maps; a
/// custom name is kept as it stands.
pub open spec fn ts_ty_to_rust(s: Seq<char>) -> Seq<char>
    decreases s.len(),
{
    if s == "string"@ {
        "String"@
    } else if s == "number"@ {
        "i64"@
    } else if s == "boolean"@ {
        "bool"@
    } else if s == "any"@ {
        "serde_json::Value"@
    } else if s.len() > 2 && s.subrange(s.len() - 2, s.len() as int) == "[]"@ {
        "Vec<"@ + ts_ty_to_rust(s.take(s.len() - 2)) + ">"@
    } else if s.len() > 7 && s.subrange(s.len() - 7, s.len() as int) == " | null"@ {
        "Option<"@ + ts_ty_to_rust(s.take(s.len() - 7)) + ">"@
    } else if wrapped_in(s, "Array<"@) {
        "Vec<"@ + ts_ty_to_rust(inner_of(s, "Array<"@)) + ">"@
    } else if wrapped_in(s, "Record<string, "@) {
        "HashMap<String, "@ + ts_ty_to_rust(inner_of(s, "Record<string, "@)) + ">"@
    } else {
        s
    }
}

/// Finds the first comma at angle-bracket depth zero.
fn top_comma(s: &str) -> (r: usize)
    ensures
        r == top_comma_from(s@, 0, 0),
        r <= s@.len(),
{
    let n = s.unicode_len();
    let mut i: usize = 0;
    let mut depth: i128 = 0;
    while i < n
        invariant
            n == s@.len(),
            0 <= i <= n,
            -(i as int) <= depth as int <= i as int,
            top_comma_from(s@, 0, 0) == top_comma_from(s@, i as int, depth as int),
        decreases n - i,
    {
        let c = s.get_char(i);
        if c == ',' && depth == 0 {
            return i;
        }
        if c == '<' {
            depth = depth + 1;
        } else if c == '>' {
            depth = depth - 1;
        }
        i += 1;
    }
    n
}

/// Translates a backend type name to the frontend convention.
pub fn map_rust_type_to_ts(t: &str) -> (r: String)
    ensures
        r@ == rust_ty_to_ts(t@),
    decreases t@.len(),
{
    if str_eq(t, "String") || str_eq(t, "str") || str_eq(t, "&str") {
        return string_of(t, "string");
    }
    if str_eq(t, "i8") || str_eq(t, "i16") || str_eq(t, "i32") || str_eq(t, "i64") || str_eq(
        t,
        "i128",
    ) || str_eq(t, "isize") || str_eq(t, "u8") || str_eq(t, "u16") || str_eq(t, "u32") || str_eq(
        t,
        "u64",
    ) || str_eq(t, "u128") || str_eq(t, "usize") || str_eq(t, "f32") || str_eq(t, "f64") {
        return string_of(t, "number");
    }
    if str_eq(t, "bool") {
        return string_of(t, "boolean");
    }
    let n = t.unicode_len();
    if let Some(inner) = unwrap_prefix(t, "Vec<") {
        let mapped = map_rust_type_to_ts(inner);
        return concat2(mapped.as_str(), "[]");
    }
    if let Some(inner) = unwrap_prefix(t, "Option<") {
        let mapped = map_rust_type_to_ts(inner);
        return concat2(mapped.as_str(), " | null");
    }
    if let Some(inner) = unwrap_prefix(t, "Result<") {
        let cut = top_comma(inner);
        let ok_part = inner.substring_char(0, cut);
        proof {
            assert(ok_part@ =~= inner@.take(cut as int));
        }
        return map_rust_type_to_ts(ok_part);
    }
    if let Some(inner) = unwrap_prefix(t, "HashMap<") {
        let cut = top_comma(inner);
        let m = inner.unicode_len();
        let val = if cut < m {
            let tail = inner.substring_char(cut + 1, m);
            proof {
                assert(tail@ =~= inner@.skip(top_comma_from(inner@, 0, 0) + 1));
            }
            if tail.unicode_len() > 0 && tail.get_char(0) == ' ' {
                let v = inner.substring_char(cut + 2, m);
                proof {
                    assert(v@ =~= tail@.drop_first());
                    assert(v@ == map_value_of(inner@));
                }
                v
            } else {
                proof {
                    assert(tail@ == map_value_of(inner@));
                }
                tail
            }
        } else {
            let tail = inner.substring_char(m, m);
            proof {
                assert(tail@ =~= Seq::<char>::empty());
                assert(tail@ == map_value_of(inner@));
            }
            tail
        };
        let mapped = map_rust_type_to_ts(val);
        return concat3("Record<string, ", mapped.as_str(), ">");
    }
    string_of(t, "any")
}

/// Translates a frontend type name to the backend convention.
pub fn map_ts_type_to_rust(t: &str) -> (r: String)
    ensures
        r@ == ts_ty_to_rust(t@),
    decreases t@.len(),
{
    if str_eq(t, "string") {
        return string_of(t, "String");
    }
    if str_eq(t, "number") {
        return string_of(t, "i64");
    }
    if str_eq(t, "boolean") {
        return string_of(t, "bool");
    }
    if str_eq(t, "any") {
        return string_of(t, "serde_json::Value");
    }
    let n = t.unicode_len();
    if n > 2 {
        let tail = t.substring_char(n - 2, n);
        if str_eq(tail, "[]") {
            let head = t.substring_char(0, n - 2);
            proof {
                assert(tail@ =~= t@.subrange(t@.len() - 2, t@.len() as int));
                assert(head@ =~= t@.take(t@.len() - 2));
            }
            let mapped = map_ts_type_to_rust(head);
            return concat3("Vec<", mapped.as_str(), ">");
        }
        proof {
            assert(tail@ =~= t@.subrange(t@.len() - 2, t@.len() as int));
        }
    }
    if n > 7 {
        let tail = t.substring_char(n - 7, n);
        if str_eq(tail, " | null") {
            let head = t.substring_char(0, n - 7);
            proof {
                assert(tail@ =~= t@.subrange(t@.len() - 7, t@.len() as int));
                assert(head@ =~= t@.take(t@.len() - 7));
            }
            let mapped = map_ts_type_to_rust(head);
            return concat3("Option<", mapped.as_str(), ">");
        }
        proof {
            assert(tail@ =~= t@.subrange(t@.len() - 7, t@.len() as int));
        }
    }
    if let Some(inner) = unwrap_prefix(t, "Array<") {
        let mapped = map_ts_type_to_rust(inner);
        return concat3("Vec<", mapped.as_str(), ">");
    }
    if let Some(inner) = unwrap_prefix(t, "Record<string, ") {
        let mapped = map_ts_type_to_rust(inner);
        return concat3("HashMap<String, ", mapped.as_str(), ">");
    }
    t.to_owned()
}

/// The success type of a backend `Result` type text; any other type
/// text is returned unchanged.
pub fn extract_result_ok_type(t: &str) -> (r: String)
    ensures
        r@ == result_ok_spec(t@),
{
    if let Some(inner) = unwrap_prefix(t, "Result<") {
        let cut = top_comma(inner);
        let ok_part = inner.substring_char(0, cut);
        proof {
            assert(ok_part@ =~= inner@.take(cut as int));
        }
        return ok_part.to_owned();
    }
    t.to_owned()
}

/// Whether some attribute in the list is the marker that renames
/// fields to the frontend camelCase convention.
pub open spec fn marks_camel(v: Seq<String>) -> bool {
    exists|i: int|
        0 <= i < v.len() && occurs_from((#[trigger] v[i])@, "rename_all"@, 0) && occurs_from(
            v[i]@,
            "camelCase"@,
            0,
        )
}

/// Whether a struct's attribute list carries the marker that renames
/// its fields to the frontend camelCase convention.
pub fn should_rename_to_camel(attrs: Option<&Vec<String>>) -> (r: bool)
    ensures
        r == match attrs {
            Some(v) => marks_camel(v@),
            None => false,
        },
{
    match attrs {
        None => false,
        Some(v) => {
            let mut i: usize = 0;
            while i < v.len()
                invariant
                    0 <= i <= v@.len(),
                    attrs == Some(v),
                    forall|j: int|
                        0 <= j < i ==> !(occurs_from((#[trigger] v@[j])@, "rename_all"@, 0)
                            && occurs_from(v@[j]@, "camelCase"@, 0)),
                decreases v@.len() - i,
            {
                if contains_sub(v[i].as_str(), "rename_all") && contains_sub(
                    v[i].as_str(),
                    "camelCase",
                ) {
                    proof {
                        assert(occurs_from((v@[i as int])@, "rename_all"@, 0) && occurs_from(
                            (v@[i as int])@,
                            "camelCase"@,
                            0,
                        ));
                        assert(marks_camel(v@));
                    }
                    return true;
                }
                i += 1;
            }
            false
        },
    }
}

/// `prefix` + inner + `>` gives back the inner text.
fn unwrap_prefix<'a>(t: &'a str, prefix: &str) -> (r: Option<&'a str>)
    ensures
        match r {
            Some(inner) => wrapped_in(t@, prefix@) && inner@ == inner_of(t@, prefix@),
            None => !wrapped_in(t@, prefix@),
        },
{
    let n = t.unicode_len();
    let p = prefix.unicode_len();
    if n <= p {
        return None;
    }
    if !starts_with_sub(t, prefix) {
        return None;
    }
    if t.get_char(n - 1) != '>' {
        return None;
    }
    let inner = t.substring_char(p, n - 1);
    proof {
        assert(t@.take(p as int) =~= t@.subrange(0, p as int));
        assert(inner@ =~= inner_of(t@, prefix@));
    }
    Some(inner)
}

/// A copy of the target text; the source only fixes the spec link.
fn string_of(t: &str, lit: &str) -> (r: String)
    ensures
        r@ == lit@,
{
    let _ = t;
    lit.to_owned()
}

} // verus!
