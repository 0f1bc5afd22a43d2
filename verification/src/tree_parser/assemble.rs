//! Finding assembly: plain syntax events from the grammar runner are
//! matched against the rule tables and become typed findings. Import
//! aliases collected in a first pass resolve callable names in the
//! second, and every produced range is shifted by the script region's
//! line offset.

use crate::indexer::{
    clone_opt_string, clone_params, finding_v, opt_str_v, param_v, params_v, Finding, FindingV,
    Parameter,
};
use crate::seq_util::{lemma_sel_empty, lemma_sel_push, sel};
use crate::syntax::{Behavior, EntityType};
use crate::text::str_eq;
use crate::tree_parser::patterns::{
    frontend_pattern, is_emit_method, is_emit_method_name, is_listen_method,
    is_listen_method_name, lookup_frontend_pattern, ArgPosition,
};
use crate::{Position, Range};
use vstd::prelude::*;

verus! {

/// The contents of a finding list.
pub open spec fn findings_v(v: Seq<Finding>) -> Seq<FindingV> {
    v.map_values(|f: Finding| finding_v(f))
}

/// A line shifted down by a region offset, clamped at the type's edge.
pub open spec fn shift_line(line: u32, off: u32) -> u32 {
    if line + off > u32::MAX {
        u32::MAX
    } else {
        (line + off) as u32
    }
}

/// Shifts a position down by a region's line offset.
pub open spec fn adjust_position_spec(p: Position, off: u32) -> Position {
    Position { line: shift_line(p.line, off), character: p.character }
}

/// Shifts a range down by a region's line offset.
pub open spec fn adjust_range_spec(r: Range, off: u32) -> Range {
    Range { start: adjust_position_spec(r.start, off), end: adjust_position_spec(r.end, off) }
}

/// Shifts a position down by a region's line offset.
pub fn adjust_position(p: Position, line_offset: u32) -> (r: Position)
    ensures
        r == adjust_position_spec(p, line_offset),
{
    let line = if p.line > u32::MAX - line_offset {
        u32::MAX
    } else {
        p.line + line_offset
    };
    Position { line, character: p.character }
}

/// Shifts a range down by a region's line offset.
pub fn adjust_range(r: Range, line_offset: u32) -> (res: Range)
    ensures
        res == adjust_range_spec(r, line_offset),
{
    Range {
        start: adjust_position(r.start, line_offset),
        end: adjust_position(r.end, line_offset),
    }
}

/// One structural event of the backend dialect.
#[derive(Debug)]
pub enum RustEvent {
    /// A function carrying the command marker attribute.
    Command {
        name: String,
        range: Range,
        parameters: Option<Vec<Parameter>>,
        return_type: Option<String>,
    },
    /// A struct declaration with its fields and attached attributes.
    StructDef { name: String, range: Range, fields: Vec<Parameter>, attributes: Vec<String> },
    /// An enum declaration with its variants and attached attributes.
    EnumDef { name: String, range: Range, variants: Vec<Parameter>, attributes: Vec<String> },
    /// A method call whose first argument is a string literal.
    MethodCall { method: String, event_name: String, range: Range },
}

/// The finding a backend event produces, if any: commands, structs and
/// enums define symbols; a method call produces an event occurrence
/// exactly when the method stands in the emit or listen table.
pub open spec fn rust_event_finding(e: RustEvent) -> Option<FindingV> {
    match e {
        RustEvent::Command { name, range, parameters, return_type } => Some(
            FindingV {
                key: name@,
                entity: EntityType::Command,
                behavior: Behavior::Definition,
                range,
                parameters: params_v(parameters),
                return_type: opt_str_v(return_type),
                fields: None,
                attributes: None,
            },
        ),
        RustEvent::StructDef { name, range, fields, attributes } => Some(
            FindingV {
                key: name@,
                entity: EntityType::Struct,
                behavior: Behavior::Definition,
                range,
                parameters: None,
                return_type: None,
                fields: Some(fields@.map_values(|p: Parameter| param_v(p))),
                attributes: if attributes@.len() == 0 {
                    None
                } else {
                    Some(attributes@.map_values(|a: String| a@))
                },
            },
        ),
        RustEvent::EnumDef { name, range, variants, attributes } => Some(
            FindingV {
                key: name@,
                entity: EntityType::Enum,
                behavior: Behavior::Definition,
                range,
                parameters: None,
                return_type: None,
                fields: Some(variants@.map_values(|p: Parameter| param_v(p))),
                attributes: if attributes@.len() == 0 {
                    None
                } else {
                    Some(attributes@.map_values(|a: String| a@))
                },
            },
        ),
        RustEvent::MethodCall { method, event_name, range } => if is_emit_method(method@) {
            Some(
                FindingV {
                    key: event_name@,
                    entity: EntityType::Event,
                    behavior: Behavior::Emit,
                    range,
                    parameters: None,
                    return_type: None,
                    fields: None,
                    attributes: None,
                },
            )
        } else if is_listen_method(method@) {
            Some(
                FindingV {
                    key: event_name@,
                    entity: EntityType::Event,
                    behavior: Behavior::Listen,
                    range,
                    parameters: None,
                    return_type: None,
                    fields: None,
                    attributes: None,
                },
            )
        } else {
            None
        },
    }
}

/// Selects backend events that produce a finding.
pub open spec fn rust_yields() -> spec_fn(RustEvent) -> bool {
    |e: RustEvent| rust_event_finding(e) is Some
}

/// Reads the finding a backend event produces.
pub open spec fn rust_out() -> spec_fn(RustEvent) -> FindingV {
    |e: RustEvent| rust_event_finding(e)->0
}

/// Clones a parameter list, preserving its content.
fn clone_param_vec(v: &Vec<Parameter>) -> (r: Vec<Parameter>)
    ensures
        r@.map_values(|p: Parameter| param_v(p)) == v@.map_values(|p: Parameter| param_v(p)),
{
    let c = v.clone();
    proof {
        assert(c@ =~= v@);
    }
    c
}

/// Clones a string list, preserving its content.
fn clone_string_vec(v: &Vec<String>) -> (r: Vec<String>)
    ensures
        r@.map_values(|a: String| a@) == v@.map_values(|a: String| a@),
        r@.len() == v@.len(),
{
    let c = v.clone();
    proof {
        assert(c@ =~= v@);
    }
    c
}

/// Assembles the findings of a backend file from its events, in event
/// order.
pub fn rust_findings(events: &Vec<RustEvent>) -> (r: Vec<Finding>)
    ensures
        findings_v(r@) == sel(events@, rust_yields(), rust_out()),
{
    let mut r: Vec<Finding> = Vec::new();
    let mut i: usize = 0;
    proof {
        assert(events@.take(0) =~= Seq::<RustEvent>::empty());
        lemma_sel_empty(rust_yields(), rust_out());
        assert(findings_v(r@) =~= Seq::<FindingV>::empty());
    }
    while i < events.len()
        invariant
            0 <= i <= events@.len(),
            findings_v(r@) == sel(events@.take(i as int), rust_yields(), rust_out()),
        decreases events@.len() - i,
    {
        let ghost prevr = r@;
        let built: Option<Finding> = match &events[i] {
            RustEvent::Command { name, range, parameters, return_type } => Some(
                Finding {
                    key: name.clone(),
                    entity: EntityType::Command,
                    behavior: Behavior::Definition,
                    range: *range,
                    parameters: clone_params(parameters),
                    return_type: clone_opt_string(return_type),
                    fields: None,
                    attributes: None,
                },
            ),
            RustEvent::StructDef { name, range, fields, attributes } => Some(
                Finding {
                    key: name.clone(),
                    entity: EntityType::Struct,
                    behavior: Behavior::Definition,
                    range: *range,
                    parameters: None,
                    return_type: None,
                    fields: Some(clone_param_vec(fields)),
                    attributes: if attributes.len() == 0 {
                        None
                    } else {
                        Some(clone_string_vec(attributes))
                    },
                },
            ),
            RustEvent::EnumDef { name, range, variants, attributes } => Some(
                Finding {
                    key: name.clone(),
                    entity: EntityType::Enum,
                    behavior: Behavior::Definition,
                    range: *range,
                    parameters: None,
                    return_type: None,
                    fields: Some(clone_param_vec(variants)),
                    attributes: if attributes.len() == 0 {
                        None
                    } else {
                        Some(clone_string_vec(attributes))
                    },
                },
            ),
            RustEvent::MethodCall { method, event_name, range } => {
                if is_emit_method_name(method.as_str()) {
                    Some(
                        Finding {
                            key: event_name.clone(),
                            entity: EntityType::Event,
                            behavior: Behavior::Emit,
                            range: *range,
                            parameters: None,
                            return_type: None,
                            fields: None,
                            attributes: None,
                        },
                    )
                } else if is_listen_method_name(method.as_str()) {
                    Some(
                        Finding {
                            key: event_name.clone(),
                            entity: EntityType::Event,
                            behavior: Behavior::Listen,
                            range: *range,
                            parameters: None,
                            return_type: None,
                            fields: None,
                            attributes: None,
                        },
                    )
                } else {
                    None
                }
            },
        };
        proof {
            let ev = events@[i as int];
            assert(events@.take(i + 1) =~= events@.take(i as int).push(ev));
            lemma_sel_push(events@.take(i as int), ev, rust_yields(), rust_out());
        }
        match built {
            Some(f) => {
                proof {
                    assert(finding_v(f) =~= rust_event_finding(events@[i as int])->0);
                }
                r.push(f);
                proof {
                    assert(findings_v(r@) =~= findings_v(prevr).push(
                        finding_v(r@[r@.len() - 1]),
                    ));
                }
            },
            None => {
                proof {
                    assert(rust_event_finding(events@[i as int]) is None);
                }
            },
        }
        i += 1;
    }
    proof {
        assert(events@.take(events@.len() as int) =~= events@);
    }
    r
}

/// One structural event of the frontend dialect.
#[derive(Debug)]
pub enum FrontendEvent {
    /// An import binding a local alias to a canonical exported name.
    Import { local: String, imported: String },
    /// A call of a named function, with up to two leading string-literal
    /// arguments, an optional object-literal argument read as named
    /// parameters, and an optional explicit type argument.
    Call {
        callee: String,
        arg0: Option<(String, Range)>,
        arg1: Option<(String, Range)>,
        parameters: Option<Vec<Parameter>>,
        type_args: Option<String>,
    },
    /// A top-level interface declaration with its fields.
    InterfaceDef { name: String, range: Range, fields: Vec<Parameter> },
}

/// Whether an event is an import binding.
pub open spec fn is_import_event(e: FrontendEvent) -> bool {
    e is Import
}

/// The alias pair of an import binding.
pub open spec fn import_pair_of(e: FrontendEvent) -> (Seq<char>, Seq<char>) {
    match e {
        FrontendEvent::Import { local, imported } => (local@, imported@),
        _ => (Seq::empty(), Seq::empty()),
    }
}

pub open spec fn is_import() -> spec_fn(FrontendEvent) -> bool {
    |e: FrontendEvent| is_import_event(e)
}

pub open spec fn import_pair() -> spec_fn(FrontendEvent) -> (Seq<char>, Seq<char>) {
    |e: FrontendEvent| import_pair_of(e)
}

/// The alias bindings of a file, in event order.
pub open spec fn aliases_of(events: Seq<FrontendEvent>) -> Seq<(Seq<char>, Seq<char>)> {
    sel(events, is_import(), import_pair())
}

/// Resolves a local name through the alias bindings; the latest binding
/// of a name wins, and an unbound name stands for itself.
pub open spec fn resolve_alias(aliases: Seq<(Seq<char>, Seq<char>)>, n: Seq<char>) -> Seq<char>
    decreases aliases.len(),
{
    if aliases.len() == 0 {
        n
    } else if aliases.last().0 == n {
        aliases.last().1
    } else {
        resolve_alias(aliases.drop_last(), n)
    }
}

/// The finding a frontend event produces, if any: an interface
/// declaration defines a symbol; a call produces an occurrence exactly
/// when its resolved callee stands in the rule table and the rule's
/// name argument is present.
pub open spec fn frontend_event_finding(
    aliases: Seq<(Seq<char>, Seq<char>)>,
    off: u32,
    e: FrontendEvent,
) -> Option<FindingV> {
    match e {
        FrontendEvent::Import { .. } => None,
        FrontendEvent::InterfaceDef { name, range, fields } => Some(
            FindingV {
                key: name@,
                entity: EntityType::Interface,
                behavior: Behavior::Definition,
                range: adjust_range_spec(range, off),
                parameters: None,
                return_type: None,
                fields: Some(fields@.map_values(|p: Parameter| param_v(p))),
                attributes: None,
            },
        ),
        FrontendEvent::Call { callee, arg0, arg1, parameters, type_args } => {
            match frontend_pattern(resolve_alias(aliases, callee@)) {
                None => None,
                Some(pat) => {
                    let chosen = if pat.2 == ArgPosition::First {
                        arg0
                    } else {
                        arg1
                    };
                    match chosen {
                        None => None,
                        Some(a) => Some(
                            FindingV {
                                key: a.0@,
                                entity: pat.0,
                                behavior: pat.1,
                                range: adjust_range_spec(a.1, off),
                                parameters: params_v(parameters),
                                return_type: opt_str_v(type_args),
                                fields: None,
                                attributes: None,
                            },
                        ),
                    }
                },
            }
        },
    }
}

pub open spec fn fe_yields(
    aliases: Seq<(Seq<char>, Seq<char>)>,
    off: u32,
) -> spec_fn(FrontendEvent) -> bool {
    |e: FrontendEvent| frontend_event_finding(aliases, off, e) is Some
}

pub open spec fn fe_out(
    aliases: Seq<(Seq<char>, Seq<char>)>,
    off: u32,
) -> spec_fn(FrontendEvent) -> FindingV {
    |e: FrontendEvent| frontend_event_finding(aliases, off, e)->0
}

/// The contents of an alias list.
pub open spec fn pairs_v(v: Seq<(String, String)>) -> Seq<(Seq<char>, Seq<char>)> {
    v.map_values(|p: (String, String)| (p.0@, p.1@))
}

/// Resolves a local name through collected alias bindings.
fn resolve_alias_exec(aliases: &Vec<(String, String)>, name: &str) -> (r: String)
    ensures
        r@ == resolve_alias(pairs_v(aliases@), name@),
{
    let ghost pv = pairs_v(aliases@);
    let mut k: usize = aliases.len();
    proof {
        assert(pv.take(k as int) =~= pv);
    }
    while k > 0
        invariant
            0 <= k <= aliases@.len(),
            pv == pairs_v(aliases@),
            resolve_alias(pv, name@) == resolve_alias(pv.take(k as int), name@),
        decreases k,
    {
        proof {
            assert(pv.take(k as int).last() == pv[k - 1]);
            assert(pv.take(k as int).drop_last() =~= pv.take(k - 1));
        }
        if str_eq(aliases[k - 1].0.as_str(), name) {
            return aliases[k - 1].1.clone();
        }
        k -= 1;
    }
    proof {
        assert(pv.take(0).len() == 0);
    }
    name.to_owned()
}

/// Assembles the findings of a frontend script region from its events:
/// alias bindings are collected over the whole region first, then each
/// call and declaration is matched, with every range shifted by the
/// region's starting line.
pub fn frontend_findings(events: &Vec<FrontendEvent>, line_offset: u32) -> (r: Vec<Finding>)
    ensures
        findings_v(r@) == sel(
            events@,
            fe_yields(aliases_of(events@), line_offset),
            fe_out(aliases_of(events@), line_offset),
        ),
{
    // First pass: collect the alias bindings.
    let mut aliases: Vec<(String, String)> = Vec::new();
    let mut i: usize = 0;
    proof {
        assert(events@.take(0) =~= Seq::<FrontendEvent>::empty());
        lemma_sel_empty(is_import(), import_pair());
        assert(pairs_v(aliases@) =~= Seq::<(Seq<char>, Seq<char>)>::empty());
    }
    while i < events.len()
        invariant
            0 <= i <= events@.len(),
            pairs_v(aliases@) == sel(events@.take(i as int), is_import(), import_pair()),
        decreases events@.len() - i,
    {
        let ghost preva = aliases@;
        match &events[i] {
            FrontendEvent::Import { local, imported } => {
                aliases.push((local.clone(), imported.clone()));
            },
            _ => {},
        }
        proof {
            let ev = events@[i as int];
            assert(events@.take(i + 1) =~= events@.take(i as int).push(ev));
            lemma_sel_push(events@.take(i as int), ev, is_import(), import_pair());
            if is_import_event(ev) {
                assert(pairs_v(aliases@) =~= pairs_v(preva).push(import_pair_of(ev)));
            } else {
                assert(pairs_v(aliases@) =~= pairs_v(preva));
            }
        }
        i += 1;
    }
    proof {
        assert(events@.take(events@.len() as int) =~= events@);
    }
    let ghost av = aliases_of(events@);
    proof {
        assert(pairs_v(aliases@) == av);
    }
    // Second pass: match calls and declarations.
    let mut r: Vec<Finding> = Vec::new();
    let mut j: usize = 0;
    proof {
        assert(events@.take(0) =~= Seq::<FrontendEvent>::empty());
        lemma_sel_empty(fe_yields(av, line_offset), fe_out(av, line_offset));
        assert(findings_v(r@) =~= Seq::<FindingV>::empty());
    }
    while j < events.len()
        invariant
            0 <= j <= events@.len(),
            av == aliases_of(events@),
            pairs_v(aliases@) == av,
            findings_v(r@) == sel(
                events@.take(j as int),
                fe_yields(av, line_offset),
                fe_out(av, line_offset),
            ),
        decreases events@.len() - j,
    {
        let ghost prevr = r@;
        let built: Option<Finding> = match &events[j] {
            FrontendEvent::Import { .. } => None,
            FrontendEvent::InterfaceDef { name, range, fields } => Some(
                Finding {
                    key: name.clone(),
                    entity: EntityType::Interface,
                    behavior: Behavior::Definition,
                    range: adjust_range(*range, line_offset),
                    parameters: None,
                    return_type: None,
                    fields: Some(clone_param_vec(fields)),
                    attributes: None,
                },
            ),
            FrontendEvent::Call { callee, arg0, arg1, parameters, type_args } => {
                let resolved = resolve_alias_exec(&aliases, callee.as_str());
                match lookup_frontend_pattern(resolved.as_str()) {
                    None => None,
                    Some(pat) => {
                        let chosen = if pat.2 == ArgPosition::First {
                            arg0
                        } else {
                            arg1
                        };
                        match chosen {
                            None => None,
                            Some(a) => Some(
                                Finding {
                                    key: a.0.clone(),
                                    entity: pat.0,
                                    behavior: pat.1,
                                    range: adjust_range(a.1, line_offset),
                                    parameters: clone_params(parameters),
                                    return_type: clone_opt_string(type_args),
                                    fields: None,
                                    attributes: None,
                                },
                            ),
                        }
                    },
                }
            },
        };
        proof {
            let ev = events@[j as int];
            assert(events@.take(j + 1) =~= events@.take(j as int).push(ev));
            lemma_sel_push(events@.take(j as int), ev, fe_yields(av, line_offset), fe_out(av, line_offset));
        }
        match built {
            Some(f) => {
                proof {
                    assert(finding_v(f) =~= frontend_event_finding(
                        av,
                        line_offset,
                        events@[j as int],
                    )->0);
                }
                r.push(f);
                proof {
                    assert(findings_v(r@) =~= findings_v(prevr).push(
                        finding_v(r@[r@.len() - 1]),
                    ));
                }
            },
            None => {
                proof {
                    assert(frontend_event_finding(av, line_offset, events@[j as int]) is None);
                }
            },
        }
        j += 1;
    }
    proof {
        assert(events@.take(events@.len() as int) =~= events@);
    }
    r
}

} // verus!
