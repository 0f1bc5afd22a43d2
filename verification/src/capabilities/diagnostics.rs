//! Presence and consistency diagnostics for one file: warnings for
//! one-sided symbols (defined but never called, called but never
//! defined, emitted without listeners, listened without emitters) and
//! field-level type reconciliation between a frontend call and its
//! backend definition. The result is specified exactly by
//! `file_diagnostics_spec`.

use crate::indexer::cache::{diag_spec, has_behavior, CommandStatus, DiagnosticInfo, EventStatus};
use crate::indexer::{
    locs_v, opt_str_v, param_v, params_v, IndexKey, KeyV, LocV, LocationInfo, ParamV, Parameter,
    ProjectIndex,
};
use crate::syntax::{
    marks_camel, rust_ty_to_ts, snake_to_camel, snake_to_camel_spec, map_rust_type_to_ts,
    Behavior, EntityType,
};
use crate::text::{contains_sub, occurs_from, str_eq};
use crate::Range;
use vstd::prelude::*;
use vstd::string::{StrSliceExecFns, StringExecFns};

verus! {

/// One advisory warning: where it points and what it says.
#[derive(Debug)]
pub struct FileDiagnostic {
    pub range: Range,
    pub message: String,
}

/// The content of a diagnostic.
pub open spec fn diag_v(d: FileDiagnostic) -> (Range, Seq<char>) {
    (d.range, d.message@)
}

/// The contents of a diagnostic list.
pub open spec fn diags_v(v: Seq<FileDiagnostic>) -> Seq<(Range, Seq<char>)> {
    v.map_values(|d: FileDiagnostic| diag_v(d))
}

pub open spec fn msg_unused_command(n: Seq<char>) -> Seq<char> {
    "Command '"@ + n + "' is defined but never invoked in frontend"@
}

pub open spec fn msg_undefined_command(n: Seq<char>) -> Seq<char> {
    "Command '"@ + n + "' is not defined in Rust backend"@
}

pub open spec fn msg_never_emitted(n: Seq<char>) -> Seq<char> {
    "Event '"@ + n + "' is listened for but never emitted"@
}

pub open spec fn msg_no_listeners(n: Seq<char>) -> Seq<char> {
    "Event '"@ + n + "' is emitted but no listeners found"@
}

pub open spec fn msg_arg_mismatch(arg: Seq<char>, expected: Seq<char>, got: Seq<char>) -> Seq<
    char,
> {
    "Type mismatch for argument '"@ + arg + "': expected "@ + expected + ", got "@ + got
}

pub open spec fn msg_unexpected_arg(cmd: Seq<char>, arg: Seq<char>) -> Seq<char> {
    "Command '"@ + cmd + "' does not expect argument '"@ + arg + "'"@
}

pub open spec fn msg_missing_arg(arg: Seq<char>, cmd: Seq<char>) -> Seq<char> {
    "Missing required argument '"@ + arg + "' for command '"@ + cmd + "'"@
}

pub open spec fn msg_field_mismatch(
    field: Seq<char>,
    ret: Seq<char>,
    expected: Seq<char>,
    got: Seq<char>,
) -> Seq<char> {
    "Type mismatch for field '"@ + field + "' in return type '"@ + ret + "': expected "@
        + expected + ", got "@ + got
}

pub open spec fn msg_return_mismatch(cmd: Seq<char>, expected: Seq<char>, got: Seq<char>) -> Seq<
    char,
> {
    "Return type mismatch for command '"@ + cmd + "': expected "@ + expected + ", got "@ + got
}

/// Whether a backend parameter is supplied by the runtime rather than
/// the caller.
pub open spec fn is_backend_only(ty: Seq<char>) -> bool {
    ||| occurs_from(ty, "State"@, 0)
    ||| occurs_from(ty, "AppHandle"@, 0)
    ||| occurs_from(ty, "Window"@, 0)
}

/// The backend parameters a frontend call is expected to supply.
pub open spec fn callable_params(rps: Seq<ParamV>) -> Seq<ParamV> {
    rps.filter(|p: ParamV| !is_backend_only(p.ty))
}

/// Whether a frontend argument name addresses the backend parameter,
/// in either naming convention.
pub open spec fn names_param(rp: ParamV, name: Seq<char>) -> bool {
    snake_to_camel_spec(rp.name) == name || rp.name == name
}

/// The first backend parameter a frontend argument name addresses.
pub open spec fn find_param(rps: Seq<ParamV>, name: Seq<char>) -> Option<ParamV>
    decreases rps.len(),
{
    if rps.len() == 0 {
        None
    } else if names_param(rps[0], name) {
        Some(rps[0])
    } else {
        find_param(rps.drop_first(), name)
    }
}

/// The diagnostics for the frontend-supplied arguments of one call:
/// an argument with no backend counterpart is unexpected; one whose
/// inferred literal type disagrees with the mapped backend type is a
/// mismatch, unless either side is beyond the primitive map.
pub open spec fn ts_arg_diags(
    cmd: Seq<char>,
    range: Range,
    rps: Seq<ParamV>,
    tsps: Seq<ParamV>,
) -> Seq<(Range, Seq<char>)>
    decreases tsps.len(),
{
    if tsps.len() == 0 {
        Seq::empty()
    } else {
        let tp = tsps[0];
        let head: Seq<(Range, Seq<char>)> = match find_param(rps, tp.name) {
            Some(rp) => {
                let expected = rust_ty_to_ts(rp.ty);
                if tp.ty != "any"@ && expected != "any"@ && tp.ty != expected {
                    seq![(range, msg_arg_mismatch(tp.name, expected, tp.ty))]
                } else {
                    Seq::empty()
                }
            },
            None => seq![(range, msg_unexpected_arg(cmd, tp.name))],
        };
        head + ts_arg_diags(cmd, range, rps, tsps.drop_first())
    }
}

/// Whether some frontend argument addresses the backend parameter.
pub open spec fn has_arg(tsps: Seq<ParamV>, rp: ParamV) -> bool {
    exists|j: int|
        0 <= j < tsps.len() && ((#[trigger] tsps[j]).name == snake_to_camel_spec(rp.name)
            || tsps[j].name == rp.name)
}

/// The diagnostics for backend parameters the call leaves out: a
/// required (non-optional) parameter with no matching argument is
/// missing.
pub open spec fn missing_arg_diags(
    cmd: Seq<char>,
    range: Range,
    rps: Seq<ParamV>,
    tsps: Seq<ParamV>,
) -> Seq<(Range, Seq<char>)>
    decreases rps.len(),
{
    if rps.len() == 0 {
        Seq::empty()
    } else {
        let rp = rps[0];
        let head: Seq<(Range, Seq<char>)> = if !has_arg(tsps, rp) && !occurs_from(
            rp.ty,
            "Option"@,
            0,
        ) {
            seq![(range, msg_missing_arg(snake_to_camel_spec(rp.name), cmd))]
        } else {
            Seq::empty()
        };
        head + missing_arg_diags(cmd, range, rps.drop_first(), tsps)
    }
}

/// Drops all leading occurrences of one character.
pub open spec fn strip_lead(s: Seq<char>, c: char) -> Seq<char>
    decreases s.len(),
{
    if s.len() > 0 && s[0] == c {
        strip_lead(s.drop_first(), c)
    } else {
        s
    }
}

/// Drops all trailing occurrences of one character.
pub open spec fn strip_trail(s: Seq<char>, c: char) -> Seq<char>
    decreases s.len(),
{
    if s.len() > 0 && s.last() == c {
        strip_trail(s.drop_last(), c)
    } else {
        s
    }
}

/// The type name inside an explicit type argument: angle brackets and
/// surrounding spaces dropped.
pub open spec fn ts_type_of(raw: Seq<char>) -> Seq<char> {
    strip_trail(strip_lead(strip_trail(strip_lead(raw, '<'), '>'), ' '), ' ')
}

/// The first definition among a key's locations.
pub open spec fn first_def_locv(locs: Seq<LocV>) -> Option<LocV>
    decreases locs.len(),
{
    if locs.len() == 0 {
        None
    } else if locs[0].behavior == Behavior::Definition {
        Some(locs[0])
    } else {
        first_def_locv(locs.drop_first())
    }
}

/// The range of the first location with the given behavior.
pub open spec fn first_range_with(locs: Seq<LocV>, b: Behavior) -> Option<Range>
    decreases locs.len(),
{
    if locs.len() == 0 {
        None
    } else if locs[0].behavior == b {
        Some(locs[0].range)
    } else {
        first_range_with(locs.drop_first(), b)
    }
}

/// Whether the attribute payload carries the camelCase rename marker.
pub open spec fn marks_camel_v(attrs: Option<Seq<Seq<char>>>) -> bool {
    match attrs {
        Some(v) => exists|i: int|
            0 <= i < v.len() && occurs_from(#[trigger] v[i], "rename_all"@, 0) && occurs_from(
                v[i],
                "camelCase"@,
                0,
            ),
        None => false,
    }
}

/// The first struct field an interface field addresses, under the
/// struct's naming convention.
pub open spec fn find_field(
    sfs: Seq<ParamV>,
    name: Seq<char>,
    rename: bool,
) -> Option<ParamV>
    decreases sfs.len(),
{
    if sfs.len() == 0 {
        None
    } else if (if rename {
        snake_to_camel_spec(sfs[0].name)
    } else {
        sfs[0].name
    }) == name {
        Some(sfs[0])
    } else {
        find_field(sfs.drop_first(), name, rename)
    }
}

/// Field-by-field comparison of an interface against a backend struct:
/// a matched field whose types disagree under the primitive map is
/// flagged, unless either side is beyond the map.
pub open spec fn field_diags(
    range: Range,
    ret: Seq<char>,
    ifs: Seq<ParamV>,
    sfs: Seq<ParamV>,
    rename: bool,
) -> Seq<(Range, Seq<char>)>
    decreases ifs.len(),
{
    if ifs.len() == 0 {
        Seq::empty()
    } else {
        let f = ifs[0];
        let head: Seq<(Range, Seq<char>)> = match find_field(sfs, f.name, rename) {
            Some(sf) => {
                let expected = rust_ty_to_ts(sf.ty);
                if f.ty != "any"@ && expected != "any"@ && f.ty != expected {
                    seq![(range, msg_field_mismatch(f.name, ret, expected, f.ty))]
                } else {
                    Seq::empty()
                }
            },
            None => Seq::empty(),
        };
        head + field_diags(range, ret, ifs.drop_first(), sfs, rename)
    }
}

/// The return-type check of one call against its definition: with an
/// explicit expected type naming a known frontend interface and a
/// backend return naming a known struct, the two are compared field by
/// field; with primitives on both sides they are compared directly;
/// an expected `any` opts out.
pub open spec fn return_diags(
    px: ProjectIndex,
    cmd: Seq<char>,
    range: Range,
    ts_ret: Option<Seq<char>>,
    rust_ret: Option<Seq<char>>,
) -> Seq<(Range, Seq<char>)> {
    match (ts_ret, rust_ret) {
        (Some(raw), Some(rr)) => {
            let tst = ts_type_of(raw);
            if tst == "any"@ {
                Seq::empty()
            } else {
                let struct_locs = px.locs_of(EntityType::Struct, rr);
                if struct_locs.len() > 0 {
                    let iface_locs = px.locs_of(EntityType::Interface, tst);
                    match (first_def_locv(iface_locs), first_def_locv(struct_locs)) {
                        (Some(id), Some(sd)) => match (id.fields, sd.fields) {
                            (Some(ifs), Some(sfs)) => field_diags(
                                range,
                                tst,
                                ifs,
                                sfs,
                                marks_camel_v(sd.attributes),
                            ),
                            _ => Seq::empty(),
                        },
                        _ => Seq::empty(),
                    }
                } else {
                    let expected = rust_ty_to_ts(rr);
                    if expected != "any"@ && tst != expected {
                        seq![(range, msg_return_mismatch(cmd, expected, tst))]
                    } else {
                        Seq::empty()
                    }
                }
            }
        },
        _ => Seq::empty(),
    }
}

/// Everything one location contributes: its presence warning, and for
/// a call with a known definition the argument and return checks.
pub open spec fn loc_diags(
    px: ProjectIndex,
    k: crate::indexer::KeyV,
    loc: LocV,
    info: DiagnosticInfo,
    fc: Option<Range>,
    fe: Option<Range>,
    def: Option<LocV>,
) -> Seq<(Range, Seq<char>)> {
    let presence: Seq<(Range, Seq<char>)> = match loc.behavior {
        Behavior::Definition => if k.entity == EntityType::Command && !info.command.has_calls {
            seq![(loc.range, msg_unused_command(k.name))]
        } else {
            Seq::empty()
        },
        Behavior::Call => if !info.command.has_definition && fc == Some(loc.range) {
            seq![(loc.range, msg_undefined_command(k.name))]
        } else {
            Seq::empty()
        },
        Behavior::Listen => if !info.event.has_emitters {
            seq![(loc.range, msg_never_emitted(k.name))]
        } else {
            Seq::empty()
        },
        Behavior::Emit => if !info.event.has_listeners && fe == Some(loc.range) {
            seq![(loc.range, msg_no_listeners(k.name))]
        } else {
            Seq::empty()
        },
    };
    let checks: Seq<(Range, Seq<char>)> = if loc.behavior == Behavior::Call
        && info.command.has_definition {
        match def {
            Some(d) => {
                let args: Seq<(Range, Seq<char>)> = match (loc.parameters, d.parameters) {
                    (Some(tsps), Some(rps)) => {
                        let crps = callable_params(rps);
                        ts_arg_diags(k.name, loc.range, crps, tsps) + missing_arg_diags(
                            k.name,
                            loc.range,
                            crps,
                            tsps,
                        )
                    },
                    _ => Seq::empty(),
                };
                args + return_diags(px, k.name, loc.range, loc.return_type, d.return_type)
            },
            None => Seq::empty(),
        }
    } else {
        Seq::empty()
    };
    presence + checks
}

/// The diagnostics of one key's locations in the file, in location
/// order.
pub open spec fn per_loc_diags(
    px: ProjectIndex,
    k: crate::indexer::KeyV,
    locals: Seq<LocV>,
    info: DiagnosticInfo,
    fc: Option<Range>,
    fe: Option<Range>,
    def: Option<LocV>,
) -> Seq<(Range, Seq<char>)>
    decreases locals.len(),
{
    if locals.len() == 0 {
        Seq::empty()
    } else {
        loc_diags(px, k, locals[0], info, fc, fe, def) + per_loc_diags(
            px,
            k,
            locals.drop_first(),
            info,
            fc,
            fe,
            def,
        )
    }
}

/// The diagnostics of one key of the file.
pub open spec fn key_diags(px: ProjectIndex, path: Seq<char>, k: crate::indexer::KeyV) -> Seq<
    (Range, Seq<char>),
> {
    let all = px.locs_of(k.entity, k.name);
    let locals = all.filter(|l: LocV| l.path == path);
    let info = diag_spec(all);
    per_loc_diags(
        px,
        k,
        locals,
        info,
        first_range_with(locals, Behavior::Call),
        first_range_with(locals, Behavior::Emit),
        first_def_locv(all),
    )
}

/// The diagnostics over a list of keys, in order.
pub open spec fn diags_over_keys(
    px: ProjectIndex,
    path: Seq<char>,
    ks: Seq<crate::indexer::KeyV>,
) -> Seq<(Range, Seq<char>)>
    decreases ks.len(),
{
    if ks.len() == 0 {
        Seq::empty()
    } else {
        key_diags(px, path, ks[0]) + diags_over_keys(px, path, ks.drop_first())
    }
}

/// All diagnostics of one file: nothing while the file has a parse
/// error on record; otherwise each distinct key of the file
/// contributes in first-occurrence order.
pub open spec fn file_diagnostics_spec(px: ProjectIndex, path: Seq<char>) -> Seq<
    (Range, Seq<char>),
> {
    if px.parse_error_of(path) is Some {
        Seq::empty()
    } else {
        diags_over_keys(px, path, crate::indexer::dedup_first(px.file_keys(path)))
    }
}

/// The contents of a parameter list.
pub open spec fn plist_v(v: Seq<Parameter>) -> Seq<ParamV> {
    v.map_values(|p: Parameter| param_v(p))
}

fn m_unused(n: &str) -> (r: String)
    ensures
        r@ == msg_unused_command(n@),
{
    crate::text::concat3("Command '", n, "' is defined but never invoked in frontend")
}

fn m_undefined(n: &str) -> (r: String)
    ensures
        r@ == msg_undefined_command(n@),
{
    crate::text::concat3("Command '", n, "' is not defined in Rust backend")
}

fn m_never_emitted(n: &str) -> (r: String)
    ensures
        r@ == msg_never_emitted(n@),
{
    crate::text::concat3("Event '", n, "' is listened for but never emitted")
}

fn m_no_listeners(n: &str) -> (r: String)
    ensures
        r@ == msg_no_listeners(n@),
{
    crate::text::concat3("Event '", n, "' is emitted but no listeners found")
}

fn m_arg_mismatch(arg: &str, expected: &str, got: &str) -> (r: String)
    ensures
        r@ == msg_arg_mismatch(arg@, expected@, got@),
{
    let mut s = crate::text::concat5(
        "Type mismatch for argument '",
        arg,
        "': expected ",
        expected,
        ", got ",
    );
    s.append(got);
    s
}

fn m_unexpected_arg(cmd: &str, arg: &str) -> (r: String)
    ensures
        r@ == msg_unexpected_arg(cmd@, arg@),
{
    crate::text::concat5("Command '", cmd, "' does not expect argument '", arg, "'")
}

fn m_missing_arg(arg: &str, cmd: &str) -> (r: String)
    ensures
        r@ == msg_missing_arg(arg@, cmd@),
{
    crate::text::concat5("Missing required argument '", arg, "' for command '", cmd, "'")
}

fn m_field_mismatch(field: &str, ret: &str, expected: &str, got: &str) -> (r: String)
    ensures
        r@ == msg_field_mismatch(field@, ret@, expected@, got@),
{
    let mut s = crate::text::concat5(
        "Type mismatch for field '",
        field,
        "' in return type '",
        ret,
        "': expected ",
    );
    s.append(expected);
    s.append(", got ");
    s.append(got);
    s
}

fn m_return_mismatch(cmd: &str, expected: &str, got: &str) -> (r: String)
    ensures
        r@ == msg_return_mismatch(cmd@, expected@, got@),
{
    let mut s = crate::text::concat5(
        "Return type mismatch for command '",
        cmd,
        "': expected ",
        expected,
        ", got ",
    );
    s.append(got);
    s
}

/// Drops leading occurrences of one character.
fn strip_lead_exec<'a>(s: &'a str, c: char) -> (r: &'a str)
    ensures
        r@ == strip_lead(s@, c),
{
    let n = s.unicode_len();
    let mut lo: usize = 0;
    while lo < n && s.get_char(lo) == c
        invariant
            n == s@.len(),
            0 <= lo <= n,
            forall|j: int| 0 <= j < lo ==> s@[j] == c,
        decreases n - lo,
    {
        lo += 1;
    }
    let r = s.substring_char(lo, n);
    proof {
        lemma_strip_lead_skip(s@, c, lo as int);
        assert(r@ =~= s@.skip(lo as int));
    }
    r
}

proof fn lemma_strip_lead_skip(s: Seq<char>, c: char, lo: int)
    requires
        0 <= lo <= s.len(),
        forall|j: int| 0 <= j < lo ==> s[j] == c,
        lo == s.len() || s[lo] != c,
    ensures
        strip_lead(s, c) == s.skip(lo),
    decreases lo,
{
    if lo == 0 {
        assert(s.skip(0) =~= s);
    } else {
        assert(s[0] == c);
        assert(forall|j: int| 0 <= j < lo - 1 ==> s.drop_first()[j] == c);
        assert(lo - 1 == s.drop_first().len() || s.drop_first()[lo - 1] != c);
        lemma_strip_lead_skip(s.drop_first(), c, lo - 1);
        assert(s.drop_first().skip(lo - 1) =~= s.skip(lo));
    }
}

/// Drops trailing occurrences of one character.
fn strip_trail_exec<'a>(s: &'a str, c: char) -> (r: &'a str)
    ensures
        r@ == strip_trail(s@, c),
{
    let n = s.unicode_len();
    let mut hi: usize = n;
    while hi > 0 && s.get_char(hi - 1) == c
        invariant
            n == s@.len(),
            0 <= hi <= n,
            forall|j: int| hi <= j < n ==> s@[j] == c,
        decreases hi,
    {
        hi -= 1;
    }
    let r = s.substring_char(0, hi);
    proof {
        lemma_strip_trail_take(s@, c, hi as int);
        assert(r@ =~= s@.take(hi as int));
    }
    r
}

proof fn lemma_strip_trail_take(s: Seq<char>, c: char, hi: int)
    requires
        0 <= hi <= s.len(),
        forall|j: int| hi <= j < s.len() ==> s[j] == c,
        hi == 0 || s[hi - 1] != c,
    ensures
        strip_trail(s, c) == s.take(hi),
    decreases s.len() - hi,
{
    if hi == s.len() {
        assert(s.take(hi) =~= s);
    } else {
        assert(s.last() == c);
        assert(forall|j: int| hi <= j < s.drop_last().len() ==> s.drop_last()[j] == c);
        lemma_strip_trail_take(s.drop_last(), c, hi);
        assert(s.drop_last().take(hi) =~= s.take(hi));
    }
}

/// The type name inside an explicit type argument.
fn ts_type_exec(raw: &str) -> (r: String)
    ensures
        r@ == ts_type_of(raw@),
{
    let a = strip_lead_exec(raw, '<');
    let b = strip_trail_exec(a, '>');
    let c = strip_lead_exec(b, ' ');
    let d = strip_trail_exec(c, ' ');
    d.to_owned()
}

/// The first backend parameter a frontend argument name addresses.
fn find_param_exec(rps: &Vec<Parameter>, name: &str) -> (r: Option<Parameter>)
    ensures
        match r {
            Some(p) => find_param(plist_v(rps@), name@) == Some(param_v(p)),
            None => find_param(plist_v(rps@), name@) is None,
        },
{
    let ghost pv = plist_v(rps@);
    let mut i: usize = 0;
    proof {
        assert(pv.skip(0) =~= pv);
    }
    while i < rps.len()
        invariant
            0 <= i <= rps@.len(),
            pv == plist_v(rps@),
            find_param(pv, name@) == find_param(pv.skip(i as int), name@),
        decreases rps@.len() - i,
    {
        proof {
            assert(pv.skip(i as int)[0] == pv[i as int]);
            assert(pv.skip(i as int).drop_first() =~= pv.skip(i + 1));
        }
        let cam = snake_to_camel(rps[i].name.as_str());
        if str_eq(cam.as_str(), name) || str_eq(rps[i].name.as_str(), name) {
            return Some(rps[i].clone());
        }
        i += 1;
    }
    proof {
        assert(pv.skip(pv.len() as int).len() == 0);
    }
    None
}

/// Whether some frontend argument addresses the backend parameter.
fn has_arg_exec(tsps: &Vec<Parameter>, rp: &Parameter) -> (r: bool)
    ensures
        r == has_arg(plist_v(tsps@), param_v(*rp)),
{
    let cam = snake_to_camel(rp.name.as_str());
    let mut i: usize = 0;
    while i < tsps.len()
        invariant
            0 <= i <= tsps@.len(),
            cam@ == snake_to_camel_spec(rp.name@),
            forall|j: int|
                0 <= j < i ==> !((#[trigger] plist_v(tsps@)[j]).name == snake_to_camel_spec(
                    rp.name@,
                ) || plist_v(tsps@)[j].name == rp.name@),
        decreases tsps@.len() - i,
    {
        if str_eq(tsps[i].name.as_str(), cam.as_str()) || str_eq(
            tsps[i].name.as_str(),
            rp.name.as_str(),
        ) {
            proof {
                assert(plist_v(tsps@)[i as int].name == tsps@[i as int].name@);
            }
            return true;
        }
        i += 1;
    }
    false
}

/// The backend parameters a frontend call is expected to supply.
fn callable_params_exec(rps: &Vec<Parameter>) -> (r: Vec<Parameter>)
    ensures
        plist_v(r@) == callable_params(plist_v(rps@)),
{
    let mut r: Vec<Parameter> = Vec::new();
    let mut i: usize = 0;
    let ghost pred = |p: ParamV| !is_backend_only(p.ty);
    proof {
        assert(plist_v(rps@).take(0) =~= Seq::<ParamV>::empty());
        crate::seq_util::lemma_filter_none(Seq::<ParamV>::empty(), pred);
        assert(plist_v(r@) =~= Seq::<ParamV>::empty());
    }
    while i < rps.len()
        invariant
            0 <= i <= rps@.len(),
            pred == (|p: ParamV| !is_backend_only(p.ty)),
            plist_v(r@) == plist_v(rps@).take(i as int).filter(pred),
        decreases rps@.len() - i,
    {
        let ghost prevr = r@;
        let keep = !(contains_sub(rps[i].ty.as_str(), "State") || contains_sub(
            rps[i].ty.as_str(),
            "AppHandle",
        ) || contains_sub(rps[i].ty.as_str(), "Window"));
        if keep {
            r.push(rps[i].clone());
        }
        proof {
            let pv = plist_v(rps@);
            assert(pv.take(i + 1) =~= pv.take(i as int).push(pv[i as int]));
            crate::seq_util::lemma_filter_take_step(pv, i as int, pred);
            assert(keep == pred(pv[i as int]));
            if keep {
                assert(plist_v(r@) =~= plist_v(prevr).push(param_v(r@[r@.len() - 1])));
                assert(param_v(r@[r@.len() - 1]) == pv[i as int]);
            } else {
                assert(plist_v(r@) =~= plist_v(prevr));
            }
        }
        i += 1;
    }
    proof {
        assert(plist_v(rps@).take(rps@.len() as int) =~= plist_v(rps@));
    }
    r
}

/// The diagnostics for the frontend-supplied arguments of one call.
fn ts_arg_diags_exec(
    cmd: &str,
    range: Range,
    rps: &Vec<Parameter>,
    tsps: &Vec<Parameter>,
    i: usize,
) -> (r: Vec<FileDiagnostic>)
    requires
        i <= tsps@.len(),
    ensures
        diags_v(r@) == ts_arg_diags(cmd@, range, plist_v(rps@), plist_v(tsps@).skip(i as int)),
    decreases tsps@.len() - i,
{
    let mut out: Vec<FileDiagnostic> = Vec::new();
    if i == tsps.len() {
        proof {
            assert(plist_v(tsps@).skip(i as int).len() == 0);
            assert(diags_v(out@) =~= Seq::<(Range, Seq<char>)>::empty());
        }
        return out;
    }
    proof {
        assert(plist_v(tsps@).skip(i as int)[0] == plist_v(tsps@)[i as int]);
        assert(plist_v(tsps@).skip(i as int).drop_first() =~= plist_v(tsps@).skip(i + 1));
    }
    let tp = &tsps[i];
    match find_param_exec(rps, tp.name.as_str()) {
        Some(rp) => {
            let expected = map_rust_type_to_ts(rp.ty.as_str());
            if !str_eq(tp.ty.as_str(), "any") && !str_eq(expected.as_str(), "any") && !str_eq(
                tp.ty.as_str(),
                expected.as_str(),
            ) {
                out.push(
                    FileDiagnostic {
                        range,
                        message: m_arg_mismatch(
                            tp.name.as_str(),
                            expected.as_str(),
                            tp.ty.as_str(),
                        ),
                    },
                );
            }
        },
        None => {
            out.push(
                FileDiagnostic { range, message: m_unexpected_arg(cmd, tp.name.as_str()) },
            );
        },
    }
    let mut rest = ts_arg_diags_exec(cmd, range, rps, tsps, i + 1);
    let ghost headv = diags_v(out@);
    let ghost restv = diags_v(rest@);
    out.append(&mut rest);
    proof {
        assert(diags_v(out@) =~= headv + restv);
    }
    out
}

/// The diagnostics for backend parameters the call leaves out.
fn missing_arg_diags_exec(
    cmd: &str,
    range: Range,
    rps: &Vec<Parameter>,
    tsps: &Vec<Parameter>,
    i: usize,
) -> (r: Vec<FileDiagnostic>)
    requires
        i <= rps@.len(),
    ensures
        diags_v(r@) == missing_arg_diags(
            cmd@,
            range,
            plist_v(rps@).skip(i as int),
            plist_v(tsps@),
        ),
    decreases rps@.len() - i,
{
    let mut out: Vec<FileDiagnostic> = Vec::new();
    if i == rps.len() {
        proof {
            assert(plist_v(rps@).skip(i as int).len() == 0);
            assert(diags_v(out@) =~= Seq::<(Range, Seq<char>)>::empty());
        }
        return out;
    }
    proof {
        assert(plist_v(rps@).skip(i as int)[0] == plist_v(rps@)[i as int]);
        assert(plist_v(rps@).skip(i as int).drop_first() =~= plist_v(rps@).skip(i + 1));
    }
    let rp = &rps[i];
    if !has_arg_exec(tsps, rp) && !contains_sub(rp.ty.as_str(), "Option") {
        let cam = snake_to_camel(rp.name.as_str());
        out.push(FileDiagnostic { range, message: m_missing_arg(cam.as_str(), cmd) });
    }
    let mut rest = missing_arg_diags_exec(cmd, range, rps, tsps, i + 1);
    let ghost headv = diags_v(out@);
    let ghost restv = diags_v(rest@);
    out.append(&mut rest);
    proof {
        assert(diags_v(out@) =~= headv + restv);
    }
    out
}

/// The first struct field an interface field addresses.
fn find_field_exec(sfs: &Vec<Parameter>, name: &str, rename: bool) -> (r: Option<Parameter>)
    ensures
        match r {
            Some(p) => find_field(plist_v(sfs@), name@, rename) == Some(param_v(p)),
            None => find_field(plist_v(sfs@), name@, rename) is None,
        },
{
    let ghost pv = plist_v(sfs@);
    let mut i: usize = 0;
    proof {
        assert(pv.skip(0) =~= pv);
    }
    while i < sfs.len()
        invariant
            0 <= i <= sfs@.len(),
            pv == plist_v(sfs@),
            find_field(pv, name@, rename) == find_field(pv.skip(i as int), name@, rename),
        decreases sfs@.len() - i,
    {
        proof {
            assert(pv.skip(i as int)[0] == pv[i as int]);
            assert(pv.skip(i as int).drop_first() =~= pv.skip(i + 1));
        }
        let hit = if rename {
            let cam = snake_to_camel(sfs[i].name.as_str());
            str_eq(cam.as_str(), name)
        } else {
            str_eq(sfs[i].name.as_str(), name)
        };
        if hit {
            return Some(sfs[i].clone());
        }
        i += 1;
    }
    proof {
        assert(pv.skip(pv.len() as int).len() == 0);
    }
    None
}

/// Field-by-field comparison of an interface against a backend struct.
fn field_diags_exec(
    range: Range,
    ret: &str,
    ifs: &Vec<Parameter>,
    sfs: &Vec<Parameter>,
    rename: bool,
    i: usize,
) -> (r: Vec<FileDiagnostic>)
    requires
        i <= ifs@.len(),
    ensures
        diags_v(r@) == field_diags(
            range,
            ret@,
            plist_v(ifs@).skip(i as int),
            plist_v(sfs@),
            rename,
        ),
    decreases ifs@.len() - i,
{
    let mut out: Vec<FileDiagnostic> = Vec::new();
    if i == ifs.len() {
        proof {
            assert(plist_v(ifs@).skip(i as int).len() == 0);
            assert(diags_v(out@) =~= Seq::<(Range, Seq<char>)>::empty());
        }
        return out;
    }
    proof {
        assert(plist_v(ifs@).skip(i as int)[0] == plist_v(ifs@)[i as int]);
        assert(plist_v(ifs@).skip(i as int).drop_first() =~= plist_v(ifs@).skip(i + 1));
    }
    let f = &ifs[i];
    match find_field_exec(sfs, f.name.as_str(), rename) {
        Some(sf) => {
            let expected = map_rust_type_to_ts(sf.ty.as_str());
            if !str_eq(f.ty.as_str(), "any") && !str_eq(expected.as_str(), "any") && !str_eq(
                f.ty.as_str(),
                expected.as_str(),
            ) {
                out.push(
                    FileDiagnostic {
                        range,
                        message: m_field_mismatch(
                            f.name.as_str(),
                            ret,
                            expected.as_str(),
                            f.ty.as_str(),
                        ),
                    },
                );
            }
        },
        None => {},
    }
    let mut rest = field_diags_exec(range, ret, ifs, sfs, rename, i + 1);
    let ghost headv = diags_v(out@);
    let ghost restv = diags_v(rest@);
    out.append(&mut rest);
    proof {
        assert(diags_v(out@) =~= headv + restv);
    }
    out
}

/// The first definition among a list of locations.
fn first_def_exec(locs: &Vec<LocationInfo>) -> (r: Option<LocationInfo>)
    ensures
        crate::indexer::cache::opt_loc_v(r) == first_def_locv(locs_v(locs@)),
{
    let ghost lv = locs_v(locs@);
    let mut i: usize = 0;
    proof {
        assert(lv.skip(0) =~= lv);
    }
    while i < locs.len()
        invariant
            0 <= i <= locs@.len(),
            lv == locs_v(locs@),
            first_def_locv(lv) == first_def_locv(lv.skip(i as int)),
        decreases locs@.len() - i,
    {
        proof {
            assert(lv.skip(i as int)[0] == lv[i as int]);
            assert(lv.skip(i as int).drop_first() =~= lv.skip(i + 1));
        }
        if locs[i].behavior == Behavior::Definition {
            return Some(locs[i].clone());
        }
        i += 1;
    }
    proof {
        assert(lv.skip(lv.len() as int).len() == 0);
    }
    None
}

/// The range of the first location with the given behavior.
fn first_range_exec(locs: &Vec<LocationInfo>, b: Behavior) -> (r: Option<Range>)
    ensures
        r == first_range_with(locs_v(locs@), b),
{
    let ghost lv = locs_v(locs@);
    let mut i: usize = 0;
    proof {
        assert(lv.skip(0) =~= lv);
    }
    while i < locs.len()
        invariant
            0 <= i <= locs@.len(),
            lv == locs_v(locs@),
            first_range_with(lv, b) == first_range_with(lv.skip(i as int), b),
        decreases locs@.len() - i,
    {
        proof {
            assert(lv.skip(i as int)[0] == lv[i as int]);
            assert(lv.skip(i as int).drop_first() =~= lv.skip(i + 1));
        }
        if locs[i].behavior == b {
            return Some(locs[i].range);
        }
        i += 1;
    }
    proof {
        assert(lv.skip(lv.len() as int).len() == 0);
    }
    None
}

/// Whether a location list's attributes carry the rename marker.
fn marker_exec(attrs: &Option<Vec<String>>) -> (r: bool)
    ensures
        r == marks_camel_v(crate::indexer::strs_v(*attrs)),
{
    match attrs {
        None => false,
        Some(v) => {
            let mut i: usize = 0;
            while i < v.len()
                invariant
                    0 <= i <= v@.len(),
                    *attrs is Some,
                    (*attrs)->0 == *v,
                    forall|j: int|
                        0 <= j < i ==> !(occurs_from((#[trigger] v@[j])@, "rename_all"@, 0)
                            && occurs_from(v@[j]@, "camelCase"@, 0)),
                decreases v@.len() - i,
            {
                if contains_sub(v[i].as_str(), "rename_all") && contains_sub(
                    v[i].as_str(),
                    "camelCase",
                ) {
                    proof {
                        let sv = crate::indexer::strs_v(*attrs)->0;
                        assert(sv[i as int] == v@[i as int]@);
                    }
                    return true;
                }
                i += 1;
            }
            proof {
                let sv = crate::indexer::strs_v(*attrs)->0;
                assert(forall|j: int| 0 <= j < sv.len() ==> #[trigger] sv[j] == v@[j]@);
            }
            false
        },
    }
}

/// The return-type check of one call against its definition.
fn return_diags_exec(
    px: &ProjectIndex,
    cmd: &str,
    range: Range,
    ts_ret: &Option<String>,
    rust_ret: &Option<String>,
) -> (r: Vec<FileDiagnostic>)
    ensures
        diags_v(r@) == return_diags(*px, cmd@, range, opt_str_v(*ts_ret), opt_str_v(*rust_ret)),
{
    let mut out: Vec<FileDiagnostic> = Vec::new();
    proof {
        assert(diags_v(out@) =~= Seq::<(Range, Seq<char>)>::empty());
    }
    let (raw, rr) = match (ts_ret, rust_ret) {
        (Some(a), Some(b)) => (a, b),
        _ => {
            return out;
        },
    };
    let tst = ts_type_exec(raw.as_str());
    if str_eq(tst.as_str(), "any") {
        return out;
    }
    let struct_locs = px.get_locations(EntityType::Struct, rr.as_str());
    if struct_locs.len() > 0 {
        let iface_locs = px.get_locations(EntityType::Interface, tst.as_str());
        let id = first_def_exec(&iface_locs);
        let sd = first_def_exec(&struct_locs);
        match (id, sd) {
            (Some(idl), Some(sdl)) => {
                match (&idl.fields, &sdl.fields) {
                    (Some(ifs), Some(sfs)) => {
                        let rename = marker_exec(&sdl.attributes);
                        let d = field_diags_exec(range, tst.as_str(), ifs, sfs, rename, 0);
                        proof {
                            assert(plist_v(ifs@).skip(0) =~= plist_v(ifs@));
                        }
                        return d;
                    },
                    _ => {
                        return out;
                    },
                }
            },
            _ => {
                return out;
            },
        }
    }
    let expected = map_rust_type_to_ts(rr.as_str());
    if !str_eq(expected.as_str(), "any") && !str_eq(tst.as_str(), expected.as_str()) {
        out.push(
            FileDiagnostic { range, message: m_return_mismatch(cmd, expected.as_str(), tst.as_str()) },
        );
        proof {
            assert(diags_v(out@) =~= seq![
                (range, msg_return_mismatch(cmd@, rust_ty_to_ts(rr@), ts_type_of(raw@))),
            ]);
        }
    }
    out
}

/// Everything one location contributes.
fn loc_diags_exec(
    px: &ProjectIndex,
    k: &IndexKey,
    loc: &LocationInfo,
    info: DiagnosticInfo,
    fc: Option<Range>,
    fe: Option<Range>,
    def: &Option<LocationInfo>,
) -> (r: Vec<FileDiagnostic>)
    ensures
        diags_v(r@) == loc_diags(
            *px,
            crate::indexer::key_v(*k),
            crate::indexer::loc_v(*loc),
            info,
            fc,
            fe,
            crate::indexer::cache::opt_loc_v(*def),
        ),
{
    let mut out: Vec<FileDiagnostic> = Vec::new();
    proof {
        assert(diags_v(out@) =~= Seq::<(Range, Seq<char>)>::empty());
    }
    // The presence warning of this occurrence.
    let b = loc.behavior;
    if b == Behavior::Definition {
        if k.entity == EntityType::Command && !info.command.has_calls {
            out.push(FileDiagnostic { range: loc.range, message: m_unused(k.name.as_str()) });
        }
    } else if b == Behavior::Call {
        let at_first = match fc {
            Some(r0) => r0 == loc.range,
            None => false,
        };
        if !info.command.has_definition && at_first {
            out.push(FileDiagnostic { range: loc.range, message: m_undefined(k.name.as_str()) });
        }
    } else if b == Behavior::Listen {
        if !info.event.has_emitters {
            out.push(
                FileDiagnostic { range: loc.range, message: m_never_emitted(k.name.as_str()) },
            );
        }
    } else {
        let at_first = match fe {
            Some(r0) => r0 == loc.range,
            None => false,
        };
        if !info.event.has_listeners && at_first {
            out.push(
                FileDiagnostic { range: loc.range, message: m_no_listeners(k.name.as_str()) },
            );
        }
    }
    let ghost presencev = diags_v(out@);
    // The structural checks of a call against its definition.
    if b == Behavior::Call && info.command.has_definition {
        match def {
            Some(d) => {
                let ghost argsv_expected = diags_v(out@);
                match (&loc.parameters, &d.parameters) {
                    (Some(tsps), Some(rps)) => {
                        let crps = callable_params_exec(rps);
                        let mut a1 = ts_arg_diags_exec(k.name.as_str(), loc.range, &crps, tsps, 0);
                        let mut a2 = missing_arg_diags_exec(
                            k.name.as_str(),
                            loc.range,
                            &crps,
                            tsps,
                            0,
                        );
                        proof {
                            assert(plist_v(tsps@).skip(0) =~= plist_v(tsps@));
                            assert(plist_v(crps@).skip(0) =~= plist_v(crps@));
                        }
                        let ghost a1v = diags_v(a1@);
                        let ghost a2v = diags_v(a2@);
                        out.append(&mut a1);
                        out.append(&mut a2);
                        proof {
                            assert(diags_v(out@) =~= presencev + (a1v + a2v));
                        }
                    },
                    _ => {},
                }
                let mut rd = return_diags_exec(
                    px,
                    k.name.as_str(),
                    loc.range,
                    &loc.return_type,
                    &d.return_type,
                );
                let ghost prev = diags_v(out@);
                let ghost rdv = diags_v(rd@);
                out.append(&mut rd);
                proof {
                    assert(diags_v(out@) =~= prev + rdv);
                    assert(diags_v(out@) =~= presencev + loc_checks_part(
                        *px,
                        crate::indexer::key_v(*k),
                        crate::indexer::loc_v(*loc),
                        info,
                        crate::indexer::cache::opt_loc_v(*def),
                    ));
                }
            },
            None => {},
        }
    }
    proof {
        assert(diags_v(out@) =~= loc_diags(
            *px,
            crate::indexer::key_v(*k),
            crate::indexer::loc_v(*loc),
            info,
            fc,
            fe,
            crate::indexer::cache::opt_loc_v(*def),
        ));
    }
    out
}

/// The structural-check half of `loc_diags`.
pub open spec fn loc_checks_part(
    px: ProjectIndex,
    k: KeyV,
    loc: LocV,
    info: DiagnosticInfo,
    def: Option<LocV>,
) -> Seq<(Range, Seq<char>)> {
    if loc.behavior == Behavior::Call && info.command.has_definition {
        match def {
            Some(d) => {
                let args: Seq<(Range, Seq<char>)> = match (loc.parameters, d.parameters) {
                    (Some(tsps), Some(rps)) => {
                        let crps = callable_params(rps);
                        ts_arg_diags(k.name, loc.range, crps, tsps) + missing_arg_diags(
                            k.name,
                            loc.range,
                            crps,
                            tsps,
                        )
                    },
                    _ => Seq::empty(),
                };
                args + return_diags(px, k.name, loc.range, loc.return_type, d.return_type)
            },
            None => Seq::empty(),
        }
    } else {
        Seq::empty()
    }
}

/// Filters a key's locations to those stored in one file.
fn locals_of(all: &Vec<LocationInfo>, path: &str) -> (r: Vec<LocationInfo>)
    ensures
        locs_v(r@) == locs_v(all@).filter(|l: LocV| l.path == path@),
{
    let ghost pred = |l: LocV| l.path == path@;
    let mut r: Vec<LocationInfo> = Vec::new();
    let mut i: usize = 0;
    proof {
        assert(locs_v(all@).take(0) =~= Seq::<LocV>::empty());
        crate::seq_util::lemma_filter_none(Seq::<LocV>::empty(), pred);
        assert(locs_v(r@) =~= Seq::<LocV>::empty());
    }
    while i < all.len()
        invariant
            0 <= i <= all@.len(),
            pred == (|l: LocV| l.path == path@),
            locs_v(r@) == locs_v(all@).take(i as int).filter(pred),
        decreases all@.len() - i,
    {
        let ghost prevr = r@;
        let keep = str_eq(all[i].path.as_str(), path);
        if keep {
            r.push(all[i].clone());
        }
        proof {
            let lv = locs_v(all@);
            assert(lv.take(i + 1) =~= lv.take(i as int).push(lv[i as int]));
            crate::seq_util::lemma_filter_take_step(lv, i as int, pred);
            assert(keep == pred(lv[i as int]));
            if keep {
                assert(locs_v(r@) =~= locs_v(prevr).push(crate::indexer::loc_v(r@[r@.len() - 1])));
                assert(crate::indexer::loc_v(r@[r@.len() - 1]) == lv[i as int]);
            } else {
                assert(locs_v(r@) =~= locs_v(prevr));
            }
        }
        i += 1;
    }
    proof {
        assert(locs_v(all@).take(all@.len() as int) =~= locs_v(all@));
    }
    r
}

/// Computes the presence aggregate of a location list.
fn info_of_locs(all: &Vec<LocationInfo>) -> (r: DiagnosticInfo)
    ensures
        r == diag_spec(locs_v(all@)),
{
    let mut r = DiagnosticInfo {
        command: CommandStatus { has_definition: false, has_calls: false },
        event: EventStatus { has_emitters: false, has_listeners: false },
    };
    let mut i: usize = 0;
    proof {
        assert(locs_v(all@).take(0) =~= Seq::<LocV>::empty());
    }
    while i < all.len()
        invariant
            0 <= i <= all@.len(),
            r == diag_spec(locs_v(all@).take(i as int)),
        decreases all@.len() - i,
    {
        let ghost prefix = locs_v(all@).take(i as int);
        let b = all[i].behavior;
        if b == Behavior::Definition {
            r.command.has_definition = true;
        } else if b == Behavior::Call {
            r.command.has_calls = true;
        } else if b == Behavior::Emit {
            r.event.has_emitters = true;
        } else {
            r.event.has_listeners = true;
        }
        proof {
            let cur = locs_v(all@).take(i + 1);
            assert(cur =~= prefix.push(locs_v(all@)[i as int]));
            assert forall|b2: Behavior| has_behavior(cur, b2) == (has_behavior(prefix, b2) || (
            locs_v(all@)[i as int].behavior == b2)) by {
                if has_behavior(prefix, b2) {
                    let w = choose|w: int|
                        0 <= w < prefix.len() && (#[trigger] prefix[w]).behavior == b2;
                    assert(cur[w].behavior == b2);
                }
                if locs_v(all@)[i as int].behavior == b2 {
                    assert(cur[cur.len() - 1].behavior == b2);
                }
                if has_behavior(cur, b2) {
                    let w = choose|w: int|
                        0 <= w < cur.len() && (#[trigger] cur[w]).behavior == b2;
                    if w < prefix.len() {
                        assert(prefix[w].behavior == b2);
                    }
                }
            }
            assert(locs_v(all@)[i as int].behavior == all@[i as int].behavior);
        }
        i += 1;
    }
    proof {
        assert(locs_v(all@).take(all@.len() as int) =~= locs_v(all@));
    }
    r
}

/// Computes the diagnostics of one file: advisory warnings for
/// one-sided symbols and for structural mismatches at call sites, in
/// the order the file's keys were recorded, and nothing while the file
/// has a parse error on record.
pub fn compute_file_diagnostics(path: &str, project_index: &ProjectIndex) -> (r: Vec<
    FileDiagnostic,
>)
    ensures
        diags_v(r@) == file_diagnostics_spec(*project_index, path@),
{
    let mut out: Vec<FileDiagnostic> = Vec::new();
    proof {
        assert(diags_v(out@) =~= Seq::<(Range, Seq<char>)>::empty());
    }
    if project_index.get_parse_error(path).is_some() {
        return out;
    }
    let raw_keys = crate::indexer::collect_file_keys(project_index, path);
    let ks = crate::indexer::dedup_keys(&raw_keys);
    let ghost ksv = crate::indexer::keys_v(ks@);
    let mut i: usize = 0;
    proof {
        assert(ksv.skip(0) =~= ksv);
    }
    while i < ks.len()
        invariant
            0 <= i <= ks@.len(),
            ksv == crate::indexer::keys_v(ks@),
            ksv == crate::indexer::dedup_first(project_index.file_keys(path@)),
            diags_v(out@) + diags_over_keys(*project_index, path@, ksv.skip(i as int))
                == diags_over_keys(*project_index, path@, ksv),
        decreases ks@.len() - i,
    {
        let k = &ks[i];
        proof {
            assert(ksv.skip(i as int)[0] == ksv[i as int]);
            assert(ksv.skip(i as int).drop_first() =~= ksv.skip(i + 1));
            assert(crate::indexer::key_v(ks@[i as int]) == ksv[i as int]);
        }
        let all = project_index.get_locations(k.entity, k.name.as_str());
        let locals = locals_of(&all, path);
        let info = info_of_locs(&all);
        let fc = first_range_exec(&locals, Behavior::Call);
        let fe = first_range_exec(&locals, Behavior::Emit);
        let def = first_def_exec(&all);
        let ghost kk = ksv[i as int];
        proof {
            assert(locs_v(all@) == project_index.locs_of(kk.entity, kk.name));
        }
        let mut j: usize = 0;
        let ghost localsv = locs_v(locals@);
        let ghost keystart = diags_v(out@);
        proof {
            assert(localsv.skip(0) =~= localsv);
        }
        while j < locals.len()
            invariant
                0 <= j <= locals@.len(),
                localsv == locs_v(locals@),
                i < ks@.len(),
                kk == crate::indexer::keys_v(ks@)[i as int],
                *k == ks@[i as int],
                keystart + per_loc_diags(
                    *project_index,
                    kk,
                    localsv,
                    info,
                    fc,
                    fe,
                    crate::indexer::cache::opt_loc_v(def),
                ) == diags_v(out@) + per_loc_diags(
                    *project_index,
                    kk,
                    localsv.skip(j as int),
                    info,
                    fc,
                    fe,
                    crate::indexer::cache::opt_loc_v(def),
                ),
            decreases locals@.len() - j,
        {
            proof {
                assert(localsv.skip(j as int)[0] == localsv[j as int]);
                assert(localsv.skip(j as int).drop_first() =~= localsv.skip(j + 1));
            }
            let mut d = loc_diags_exec(project_index, k, &locals[j], info, fc, fe, &def);
            let ghost prevout = diags_v(out@);
            let ghost dv = diags_v(d@);
            out.append(&mut d);
            proof {
                assert(diags_v(out@) =~= prevout + dv);
                assert(crate::indexer::loc_v(locals@[j as int]) == localsv[j as int]);
                assert(crate::indexer::key_v(ks@[i as int]) == kk);
                let od = crate::indexer::cache::opt_loc_v(def);
                assert(per_loc_diags(*project_index, kk, localsv.skip(j as int), info, fc, fe, od)
                    == loc_diags(*project_index, kk, localsv[j as int], info, fc, fe, od)
                    + per_loc_diags(*project_index, kk, localsv.skip(j + 1), info, fc, fe, od));
                assert(dv == loc_diags(*project_index, kk, localsv[j as int], info, fc, fe, od));
                assert(prevout + (dv + per_loc_diags(
                    *project_index,
                    kk,
                    localsv.skip(j + 1),
                    info,
                    fc,
                    fe,
                    od,
                )) =~= (prevout + dv) + per_loc_diags(
                    *project_index,
                    kk,
                    localsv.skip(j + 1),
                    info,
                    fc,
                    fe,
                    od,
                ));
            }
            j += 1;
        }
        proof {
            assert(localsv.skip(localsv.len() as int).len() == 0);
            assert(diags_v(out@) =~= keystart + key_diags(*project_index, path@, kk));
        }
        i += 1;
    }
    proof {
        assert(ksv.skip(ksv.len() as int).len() == 0);
        assert(diags_v(out@) =~= diags_over_keys(*project_index, path@, ksv));
    }
    out
}

} // verus!
