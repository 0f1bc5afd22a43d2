//! The fixed rule tables: which backend method names emit or subscribe
//! to events, and which frontend callables produce which occurrence,
//! with the argument position that names the symbol.

use crate::syntax::{Behavior, EntityType};
use vstd::prelude::*;

verus! {

/// Which argument of a matched call carries the symbol name.
#[derive(Clone, Copy, Debug, PartialEq, Eq, Structural)]
pub enum ArgPosition {
    First,
    Second,
}

/// One frontend rule: a callable name, what a matching call produces,
/// and where the name argument stands.
#[derive(Clone, Debug)]
pub struct FunctionPatternWithPos {
    pub name: &'static str,
    pub entity: EntityType,
    pub behavior: Behavior,
    pub arg_position: ArgPosition,
}

/// Whether a backend method name emits an event.
pub open spec fn is_emit_method(m: Seq<char>) -> bool {
    ||| m == "emit"@
    ||| m == "emit_to"@
    ||| m == "emit_str"@
    ||| m == "emit_str_to"@
    ||| m == "emit_filter"@
    ||| m == "emit_str_filter"@
}

/// Whether a backend method name subscribes to an event.
pub open spec fn is_listen_method(m: Seq<char>) -> bool {
    ||| m == "listen"@
    ||| m == "listen_any"@
    ||| m == "once"@
    ||| m == "once_any"@
}

/// The backend method table: each emitting and each subscribing method
/// name with the occurrence it produces.
pub fn get_rust_event_patterns() -> (r: Vec<(&'static str, EntityType, Behavior)>)
    ensures
        r@.len() == 10,
        forall|i: int|
            0 <= i < r@.len() ==> (#[trigger] r@[i]).1 == EntityType::Event,
        forall|i: int| 0 <= i < 6 ==> (#[trigger] r@[i]).2 == Behavior::Emit,
        forall|i: int| 6 <= i < 10 ==> (#[trigger] r@[i]).2 == Behavior::Listen,
        forall|i: int| 0 <= i < 6 ==> is_emit_method((#[trigger] r@[i]).0@),
        forall|i: int| 6 <= i < 10 ==> is_listen_method((#[trigger] r@[i]).0@),
        r@[0].0@ == "emit"@ && r@[1].0@ == "emit_to"@ && r@[2].0@ == "emit_str"@,
        r@[3].0@ == "emit_str_to"@ && r@[4].0@ == "emit_filter"@ && r@[5].0@
            == "emit_str_filter"@,
        r@[6].0@ == "listen"@ && r@[7].0@ == "listen_any"@ && r@[8].0@ == "once"@ && r@[9].0@
            == "once_any"@,
{
    let mut r: Vec<(&'static str, EntityType, Behavior)> = Vec::new();
    r.push(("emit", EntityType::Event, Behavior::Emit));
    r.push(("emit_to", EntityType::Event, Behavior::Emit));
    r.push(("emit_str", EntityType::Event, Behavior::Emit));
    r.push(("emit_str_to", EntityType::Event, Behavior::Emit));
    r.push(("emit_filter", EntityType::Event, Behavior::Emit));
    r.push(("emit_str_filter", EntityType::Event, Behavior::Emit));
    r.push(("listen", EntityType::Event, Behavior::Listen));
    r.push(("listen_any", EntityType::Event, Behavior::Listen));
    r.push(("once", EntityType::Event, Behavior::Listen));
    r.push(("once_any", EntityType::Event, Behavior::Listen));
    r
}

/// What a frontend callable name produces, and which argument names the
/// symbol: `invoke` calls a command; `emit` and the listeners name the
/// event first; the directed emit names its target first and the event
/// second.
pub open spec fn frontend_pattern(name: Seq<char>) -> Option<
    (EntityType, Behavior, ArgPosition),
> {
    if name == "invoke"@ {
        Some((EntityType::Command, Behavior::Call, ArgPosition::First))
    } else if name == "emit"@ {
        Some((EntityType::Event, Behavior::Emit, ArgPosition::First))
    } else if name == "listen"@ {
        Some((EntityType::Event, Behavior::Listen, ArgPosition::First))
    } else if name == "once"@ {
        Some((EntityType::Event, Behavior::Listen, ArgPosition::First))
    } else if name == "emitTo"@ {
        Some((EntityType::Event, Behavior::Emit, ArgPosition::Second))
    } else {
        None
    }
}

/// Looks a frontend callable up in the rule table.
pub fn lookup_frontend_pattern(name: &str) -> (r: Option<(EntityType, Behavior, ArgPosition)>)
    ensures
        r == frontend_pattern(name@),
{
    if crate::text::str_eq(name, "invoke") {
        Some((EntityType::Command, Behavior::Call, ArgPosition::First))
    } else if crate::text::str_eq(name, "emit") {
        Some((EntityType::Event, Behavior::Emit, ArgPosition::First))
    } else if crate::text::str_eq(name, "listen") {
        Some((EntityType::Event, Behavior::Listen, ArgPosition::First))
    } else if crate::text::str_eq(name, "once") {
        Some((EntityType::Event, Behavior::Listen, ArgPosition::First))
    } else if crate::text::str_eq(name, "emitTo") {
        Some((EntityType::Event, Behavior::Emit, ArgPosition::Second))
    } else {
        None
    }
}

/// The frontend rule table, in rule order.
pub fn get_all_frontend_patterns() -> (r: Vec<FunctionPatternWithPos>)
    ensures
        r@.len() == 5,
        forall|i: int|
            0 <= i < r@.len() ==> frontend_pattern((#[trigger] r@[i]).name@) == Some(
                (r@[i].entity, r@[i].behavior, r@[i].arg_position),
            ),
        r@[0].name@ == "invoke"@ && r@[1].name@ == "emit"@ && r@[2].name@ == "listen"@,
        r@[3].name@ == "once"@ && r@[4].name@ == "emitTo"@,
{
    let mut r: Vec<FunctionPatternWithPos> = Vec::new();
    r.push(
        FunctionPatternWithPos {
            name: "invoke",
            entity: EntityType::Command,
            behavior: Behavior::Call,
            arg_position: ArgPosition::First,
        },
    );
    r.push(
        FunctionPatternWithPos {
            name: "emit",
            entity: EntityType::Event,
            behavior: Behavior::Emit,
            arg_position: ArgPosition::First,
        },
    );
    r.push(
        FunctionPatternWithPos {
            name: "listen",
            entity: EntityType::Event,
            behavior: Behavior::Listen,
            arg_position: ArgPosition::First,
        },
    );
    r.push(
        FunctionPatternWithPos {
            name: "once",
            entity: EntityType::Event,
            behavior: Behavior::Listen,
            arg_position: ArgPosition::First,
        },
    );
    r.push(
        FunctionPatternWithPos {
            name: "emitTo",
            entity: EntityType::Event,
            behavior: Behavior::Emit,
            arg_position: ArgPosition::Second,
        },
    );
    proof {
        broadcast use vstd::string::group_string_axioms;

        reveal_strlit("invoke");
        reveal_strlit("emit");
        reveal_strlit("listen");
        reveal_strlit("once");
        reveal_strlit("emitTo");
        assert("invoke"@.len() == 6);
        assert("emit"@.len() == 4);
        assert("listen"@.len() == 6);
        assert("once"@.len() == 4);
        assert("emitTo"@.len() == 6);
        assert("emit"@[0] == 'e' && "once"@[0] == 'o');
        assert("invoke"@[0] == 'i' && "listen"@[0] == 'l' && "emitTo"@[0] == 'e');
        assert("emitTo"@[1] == 'm' && "listen"@[1] == 'i' && "invoke"@[1] == 'n');
        assert forall|i: int| 0 <= i < r@.len() implies frontend_pattern(
            (#[trigger] r@[i]).name@,
        ) == Some((r@[i].entity, r@[i].behavior, r@[i].arg_position)) by {
            if i == 0 {
                assert(r@[0].name@ == "invoke"@);
            } else if i == 1 {
                assert(r@[1].name@ == "emit"@);
                assert(r@[1].name@ != "invoke"@);
            } else if i == 2 {
                assert(r@[2].name@ == "listen"@);
                assert(r@[2].name@ != "invoke"@ && r@[2].name@ != "emit"@);
            } else if i == 3 {
                assert(r@[3].name@ == "once"@);
                assert(r@[3].name@ != "invoke"@ && r@[3].name@ != "emit"@ && r@[3].name@
                    != "listen"@);
            } else {
                assert(r@[4].name@ == "emitTo"@);
                assert(r@[4].name@ != "invoke"@ && r@[4].name@ != "emit"@ && r@[4].name@
                    != "listen"@ && r@[4].name@ != "once"@);
            }
        }
    }
    r
}

/// The shallow type a frontend object-literal value infers, from the
/// grammar's node kind: string, number and boolean literals map to
/// their types, arrays and objects to their container categories, and
/// anything else stays unresolved.
pub open spec fn literal_type_spec(kind: Seq<char>) -> Seq<char> {
    if kind == "string"@ {
        "string"@
    } else if kind == "number"@ {
        "number"@
    } else if kind == "true"@ || kind == "false"@ {
        "boolean"@
    } else if kind == "array"@ {
        "any[]"@
    } else if kind == "object"@ {
        "object"@
    } else {
        "any"@
    }
}

/// Infers the shallow type of an object-literal value from its node
/// kind.
pub fn ts_literal_type(kind: &str) -> (r: &'static str)
    ensures
        r@ == literal_type_spec(kind@),
{
    if crate::text::str_eq(kind, "string") {
        "string"
    } else if crate::text::str_eq(kind, "number") {
        "number"
    } else if crate::text::str_eq(kind, "true") || crate::text::str_eq(kind, "false") {
        "boolean"
    } else if crate::text::str_eq(kind, "array") {
        "any[]"
    } else if crate::text::str_eq(kind, "object") {
        "object"
    } else {
        "any"
    }
}

/// Checks a backend method name against the emit half of the table.
pub fn is_emit_method_name(m: &str) -> (r: bool)
    ensures
        r == is_emit_method(m@),
{
    crate::text::str_eq(m, "emit") || crate::text::str_eq(m, "emit_to") || crate::text::str_eq(
        m,
        "emit_str",
    ) || crate::text::str_eq(m, "emit_str_to") || crate::text::str_eq(m, "emit_filter")
        || crate::text::str_eq(m, "emit_str_filter")
}

/// Checks a backend method name against the listen half of the table.
pub fn is_listen_method_name(m: &str) -> (r: bool)
    ensures
        r == is_listen_method(m@),
{
    crate::text::str_eq(m, "listen") || crate::text::str_eq(m, "listen_any") || crate::text::str_eq(
        m,
        "once",
    ) || crate::text::str_eq(m, "once_any")
}

} // verus!
