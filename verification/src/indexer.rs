//! The project index: typed occurrence records and the central store that
//! maps every (entity kind, name) key to all of its known locations.
//!
//! The store keeps a flat list of (key, location) entries plus a reverse
//! file map; `wf()` states the consistency invariants between them, and
//! every mutation is specified pointwise over `locs_of`: the sequence of
//! locations a key resolves to.

pub mod cache;
pub mod laws;
pub mod lens;
pub mod position;
pub mod symbols;

use crate::syntax::{Behavior, EntityType};
use vstd::seq_lib::group_filter_ensures;
use crate::seq_util::{sel, lemma_filter_take_step, lemma_sel_empty, lemma_sel_push, lemma_sel_filter_commute, lemma_sel_filter_subsume, lemma_sel_filter_disjoint, lemma_filter_singleton, lemma_filter_none, lemma_sel_first, lemma_sel_contains};
use crate::text::str_eq;
use crate::{Position, Range};
use vstd::prelude::*;

verus! {

/// One named, typed value: a declared parameter, a struct field or an enum
/// variant.
#[derive(Debug)]
pub struct Parameter {
    pub name: String,
    pub ty: String,
}

/// The mathematical content of a `Parameter`.
#[verifier::ext_equal]
pub ghost struct ParamV {
    pub name: Seq<char>,
    pub ty: Seq<char>,
}

pub open spec fn param_v(p: Parameter) -> ParamV {
    ParamV { name: p.name@, ty: p.ty@ }
}

pub open spec fn params_v(ps: Option<Vec<Parameter>>) -> Option<Seq<ParamV>> {
    match ps {
        Some(v) => Some(v@.map_values(|p: Parameter| param_v(p))),
        None => None,
    }
}

pub open spec fn opt_str_v(s: Option<String>) -> Option<Seq<char>> {
    match s {
        Some(t) => Some(t@),
        None => None,
    }
}

pub open spec fn strs_v(ss: Option<Vec<String>>) -> Option<Seq<Seq<char>>> {
    match ss {
        Some(v) => Some(v@.map_values(|t: String| t@)),
        None => None,
    }
}

impl Clone for Parameter {
    fn clone(&self) -> (r: Self)
        ensures
            r == *self,
    {
        Parameter { name: self.name.clone(), ty: self.ty.clone() }
    }
}

/// Clones an optional parameter list, preserving its content.
pub fn clone_params(ps: &Option<Vec<Parameter>>) -> (r: Option<Vec<Parameter>>)
    ensures
        params_v(r) == params_v(*ps),
{
    match ps {
        None => None,
        Some(v) => {
            let c = v.clone();
            proof {
                assert(c@ =~= v@);
            }
            Some(c)
        },
    }
}

/// Clones an optional string, preserving its content.
pub fn clone_opt_string(s: &Option<String>) -> (r: Option<String>)
    ensures
        opt_str_v(r) == opt_str_v(*s),
{
    match s {
        None => None,
        Some(t) => Some(t.clone()),
    }
}

/// Clones an optional string list, preserving its content.
pub fn clone_strings(ss: &Option<Vec<String>>) -> (r: Option<Vec<String>>)
    ensures
        strs_v(r) == strs_v(*ss),
{
    match ss {
        None => None,
        Some(v) => {
            let c = v.clone();
            proof {
                assert(c@ =~= v@);
            }
            Some(c)
        },
    }
}

/// One syntactic occurrence of a symbol in a file: its name, what kind of
/// entity it names, how it uses it, where it stands, and optional
/// structural payload used by the type checker.
#[derive(Debug)]
pub struct Finding {
    pub key: String,
    pub entity: EntityType,
    pub behavior: Behavior,
    pub range: Range,
    pub parameters: Option<Vec<Parameter>>,
    pub return_type: Option<String>,
    pub fields: Option<Vec<Parameter>>,
    pub attributes: Option<Vec<String>>,
}

impl Clone for Finding {
    fn clone(&self) -> (r: Self)
        ensures
            finding_v(r) == finding_v(*self),
    {
        Finding {
            key: self.key.clone(),
            entity: self.entity,
            behavior: self.behavior,
            range: self.range,
            parameters: clone_params(&self.parameters),
            return_type: clone_opt_string(&self.return_type),
            fields: clone_params(&self.fields),
            attributes: clone_strings(&self.attributes),
        }
    }
}

/// The mathematical content of a `Finding`.
#[verifier::ext_equal]
pub ghost struct FindingV {
    pub key: Seq<char>,
    pub entity: EntityType,
    pub behavior: Behavior,
    pub range: Range,
    pub parameters: Option<Seq<ParamV>>,
    pub return_type: Option<Seq<char>>,
    pub fields: Option<Seq<ParamV>>,
    pub attributes: Option<Seq<Seq<char>>>,
}

pub open spec fn finding_v(f: Finding) -> FindingV {
    FindingV {
        key: f.key@,
        entity: f.entity,
        behavior: f.behavior,
        range: f.range,
        parameters: params_v(f.parameters),
        return_type: opt_str_v(f.return_type),
        fields: params_v(f.fields),
        attributes: strs_v(f.attributes),
    }
}

/// All findings of one parse of one file.
#[derive(Debug)]
pub struct FileIndex {
    pub path: String,
    pub findings: Vec<Finding>,
}

/// The index's search key: names may collide across entity kinds, so a
/// key is the pair of kind and name, never the name alone.
#[derive(Debug)]
pub struct IndexKey {
    pub entity: EntityType,
    pub name: String,
}

impl Clone for IndexKey {
    fn clone(&self) -> (r: Self)
        ensures
            r == *self,
    {
        IndexKey { entity: self.entity, name: self.name.clone() }
    }
}

impl PartialEq for IndexKey {
    fn eq(&self, other: &Self) -> (r: bool) {
        self.entity == other.entity && self.name == other.name
    }
}

impl vstd::std_specs::cmp::PartialEqSpecImpl for IndexKey {
    open spec fn obeys_eq_spec() -> bool {
        true
    }

    open spec fn eq_spec(&self, other: &Self) -> bool {
        self.entity == other.entity && self.name@ == other.name@
    }
}

/// The mathematical content of an `IndexKey`.
#[verifier::ext_equal]
pub ghost struct KeyV {
    pub entity: EntityType,
    pub name: Seq<char>,
}

pub open spec fn key_v(k: IndexKey) -> KeyV {
    KeyV { entity: k.entity, name: k.name@ }
}

/// A finding materialized against a concrete file path: the index's
/// stored value type.
#[derive(Debug)]
pub struct LocationInfo {
    pub path: String,
    pub range: Range,
    pub behavior: Behavior,
    pub parameters: Option<Vec<Parameter>>,
    pub return_type: Option<String>,
    pub fields: Option<Vec<Parameter>>,
    pub attributes: Option<Vec<String>>,
}

impl Clone for LocationInfo {
    fn clone(&self) -> (r: Self)
        ensures
            loc_v(r) == loc_v(*self),
    {
        LocationInfo {
            path: self.path.clone(),
            range: self.range,
            behavior: self.behavior,
            parameters: clone_params(&self.parameters),
            return_type: clone_opt_string(&self.return_type),
            fields: clone_params(&self.fields),
            attributes: clone_strings(&self.attributes),
        }
    }
}

/// The mathematical content of a `LocationInfo`.
#[verifier::ext_equal]
pub ghost struct LocV {
    pub path: Seq<char>,
    pub range: Range,
    pub behavior: Behavior,
    pub parameters: Option<Seq<ParamV>>,
    pub return_type: Option<Seq<char>>,
    pub fields: Option<Seq<ParamV>>,
    pub attributes: Option<Seq<Seq<char>>>,
}

pub open spec fn loc_v(l: LocationInfo) -> LocV {
    LocV {
        path: l.path@,
        range: l.range,
        behavior: l.behavior,
        parameters: params_v(l.parameters),
        return_type: opt_str_v(l.return_type),
        fields: params_v(l.fields),
        attributes: strs_v(l.attributes),
    }
}

/// The location a finding denotes once tied to its file.
pub open spec fn finding_loc_v(path: Seq<char>, f: FindingV) -> LocV {
    LocV {
        path: path,
        range: f.range,
        behavior: f.behavior,
        parameters: f.parameters,
        return_type: f.return_type,
        fields: f.fields,
        attributes: f.attributes,
    }
}

/// One stored association of a key with a location.
#[derive(Debug)]
pub struct Entry {
    pub key: IndexKey,
    pub loc: LocationInfo,
}

/// The reverse-map record of one indexed file: its path and the keys its
/// findings produced, in finding order.
#[derive(Debug)]
pub struct FileEntry {
    pub path: String,
    pub keys: Vec<IndexKey>,
}

/// Selects entries whose key is (`e`, `n`).
pub open spec fn match_key(e: EntityType, n: Seq<char>) -> spec_fn(Entry) -> bool {
    |en: Entry| en.key.entity == e && en.key.name@ == n
}

/// Selects entries stored for path `p`.
pub open spec fn match_path(p: Seq<char>) -> spec_fn(Entry) -> bool {
    |en: Entry| en.loc.path@ == p
}

/// Keeps entries stored for any path other than `p`.
pub open spec fn keep_other_path(p: Seq<char>) -> spec_fn(Entry) -> bool {
    |en: Entry| en.loc.path@ != p
}

/// Keeps locations recorded under any path other than `p`.
pub open spec fn loc_path_ne(p: Seq<char>) -> spec_fn(LocV) -> bool {
    |l: LocV| l.path != p
}

/// Selects locations recorded under path `p`.
pub open spec fn loc_path_is(p: Seq<char>) -> spec_fn(LocV) -> bool {
    |l: LocV| l.path == p
}

/// Reads the location of an entry.
pub open spec fn entry_loc() -> spec_fn(Entry) -> LocV {
    |en: Entry| loc_v(en.loc)
}

/// Reads the key of an entry.
pub open spec fn entry_key() -> spec_fn(Entry) -> KeyV {
    |en: Entry| key_v(en.key)
}

/// Selects findings for the key (`e`, `n`).
pub open spec fn match_finding(e: EntityType, n: Seq<char>) -> spec_fn(Finding) -> bool {
    |f: Finding| f.entity == e && f.key@ == n
}

/// Materializes a finding of the file at `p` as a location.
pub open spec fn finding_to_loc(p: Seq<char>) -> spec_fn(Finding) -> LocV {
    |f: Finding| finding_loc_v(p, finding_v(f))
}

/// The locations that indexing the file at `path` with `findings`
/// contributes to the key (`e`, `n`), in finding order.
pub open spec fn file_locs(
    path: Seq<char>,
    findings: Seq<Finding>,
    e: EntityType,
    n: Seq<char>,
) -> Seq<LocV> {
    sel(findings, match_finding(e, n), finding_to_loc(path))
}

/// Selects parse-error records for path `p`.
pub open spec fn err_for(p: Seq<char>) -> spec_fn((String, String)) -> bool {
    |pe: (String, String)| pe.0@ == p
}

/// Keeps parse-error records for any path other than `p`.
pub open spec fn err_other(p: Seq<char>) -> spec_fn((String, String)) -> bool {
    |pe: (String, String)| pe.0@ != p
}

/// Reads the message of a parse-error record.
pub open spec fn err_text() -> spec_fn((String, String)) -> Seq<char> {
    |pe: (String, String)| pe.1@
}

/// Keeps file records for any path other than `p`.
pub open spec fn file_other(p: Seq<char>) -> spec_fn(FileEntry) -> bool {
    |fe: FileEntry| fe.path@ != p
}

/// The keys of the file entries, as mathematical keys.
pub open spec fn keys_v(keys: Seq<IndexKey>) -> Seq<KeyV> {
    keys.map_values(|k: IndexKey| key_v(k))
}

/// Every file record's key list agrees with the keys derivable from the
/// stored entries for that path, in entry order.
pub open spec fn files_consistent(files: Seq<FileEntry>, entries: Seq<Entry>) -> bool {
    forall|i: int|
        0 <= i < files.len() ==> keys_v((#[trigger] files[i]).keys@) == sel(
            entries,
            match_path(files[i].path@),
            entry_key(),
        )
}

/// Whether some file record carries path `p`.
pub open spec fn has_path(files: Seq<FileEntry>, p: Seq<char>) -> bool {
    exists|i: int| 0 <= i < files.len() && (#[trigger] files[i]).path@ == p
}

/// Every stored entry's path has a file record.
pub open spec fn files_complete(files: Seq<FileEntry>, entries: Seq<Entry>) -> bool {
    forall|j: int|
        0 <= j < entries.len() ==> has_path(files, (#[trigger] entries[j]).loc.path@)
}

/// The central store: a flat list of (key, location) entries, a reverse
/// file map kept consistent with it, per-file parse errors, and the
/// threshold that bounds reference groupings.
#[derive(Debug)]
pub struct ProjectIndex {
    pub entries: Vec<Entry>,
    pub files: Vec<FileEntry>,
    pub parse_errors: Vec<(String, String)>,
    pub reference_limit: usize,
    pub cache: cache::CacheManager,
}

impl ProjectIndex {
    /// The locations the key (`e`, `n`) resolves to, in storage order.
    pub open spec fn locs_of(self, e: EntityType, n: Seq<char>) -> Seq<LocV> {
        sel(self.entries@, match_key(e, n), entry_loc())
    }

    /// The keys derivable for the file at `p`, in entry order.
    pub open spec fn file_keys(self, p: Seq<char>) -> Seq<KeyV> {
        sel(self.entries@, match_path(p), entry_key())
    }

    /// The parse error recorded for the file at `p`, if any.
    pub open spec fn parse_error_of(self, p: Seq<char>) -> Option<Seq<char>> {
        let es = sel(self.parse_errors@, err_for(p), err_text());
        if es.len() > 0 {
            Some(es[0])
        } else {
            None
        }
    }

    /// The store's consistency invariants: the reverse file map agrees
    /// with the entries, and every memoized cache value agrees with a
    /// fresh computation.
    pub open spec fn wf(self) -> bool {
        &&& files_consistent(self.files@, self.entries@)
        &&& files_complete(self.files@, self.entries@)
        &&& cache::cache_valid(self.cache, self.entries@)
    }

    /// An empty index with the default grouping threshold.
    pub fn new() -> (r: Self)
        ensures
            r.wf(),
            forall|e: EntityType, n: Seq<char>| r.locs_of(e, n) == Seq::<LocV>::empty(),
            forall|p: Seq<char>| r.parse_error_of(p) is None,
            r.reference_limit == 3,
            r.files@.len() == 0,
    {
        let r = ProjectIndex {
            entries: Vec::new(),
            files: Vec::new(),
            parse_errors: Vec::new(),
            reference_limit: 3,
            cache: cache::CacheManager::new(),
        };
        proof {
            assert forall|e: EntityType, n: Seq<char>| r.locs_of(e, n) == Seq::<LocV>::empty() by {
                lemma_sel_empty(match_key(e, n), entry_loc());
            }
            assert forall|p: Seq<char>| r.parse_error_of(p) is None by {
                lemma_sel_empty(err_for(p), err_text());
            }
        }
        r
    }

    /// Deletes all entries, file records and parse errors of one file;
    /// every other file's data is untouched, and a key whose locations
    /// all lived in that file no longer resolves to anything.
    pub fn remove_file(&mut self, path: &str)
        requires
            old(self).wf(),
        ensures
            final(self).wf(),
            final(self).entries@ == old(self).entries@.filter(keep_other_path(path@)),
            final(self).files@ == old(self).files@.filter(file_other(path@)),
            forall|e: EntityType, n: Seq<char>| #![all_triggers]
                final(self).locs_of(e, n) == old(self).locs_of(e, n).filter(loc_path_ne(path@)),
            forall|q: Seq<char>|
                final(self).parse_error_of(q) == if q == path@ {
                    None::<Seq<char>>
                } else {
                    old(self).parse_error_of(q)
                },
            final(self).file_keys(path@) == Seq::<KeyV>::empty(),
            forall|q: Seq<char>| q != path@ ==> final(self).file_keys(q) == old(self).file_keys(q),
            final(self).reference_limit == old(self).reference_limit,
            final(self).cache.is_clear(),
    {
        let ghost oldself = *old(self);
        self.cache.invalidate_file(path);
        retain_entries(&mut self.entries, path);
        retain_files(&mut self.files, path);
        retain_errors(&mut self.parse_errors, path);
        proof {
            let keep = keep_other_path(path@);
            // Query-level consequences of filtering the entries.
            assert forall|e: EntityType, n: Seq<char>| #![all_triggers]
                self.locs_of(e, n) == oldself.locs_of(e, n).filter(loc_path_ne(path@)) by {
                assert(forall|en: Entry| #[trigger]
                    keep_other_path(path@)(en) == loc_path_ne(path@)(entry_loc()(en)));
                lemma_sel_filter_commute(
                    oldself.entries@,
                    keep_other_path(path@),
                    match_key(e, n),
                    entry_loc(),
                    loc_path_ne(path@),
                );
            }
            assert(self.file_keys(path@) == Seq::<KeyV>::empty()) by {
                assert(forall|en: Entry| #[trigger] match_path(path@)(en) ==> !keep(en));
                lemma_sel_filter_disjoint(oldself.entries@, keep, match_path(path@), entry_key());
            }
            assert forall|q: Seq<char>| q != path@ implies self.file_keys(q) == oldself.file_keys(
                q,
            ) by {
                assert(forall|en: Entry| #[trigger] match_path(q)(en) ==> keep(en));
                lemma_sel_filter_subsume(oldself.entries@, keep, match_path(q), entry_key());
            }
            assert forall|q: Seq<char>|
                self.parse_error_of(q) == (if q == path@ {
                    None::<Seq<char>>
                } else {
                    oldself.parse_error_of(q)
                }) by {
                if q == path@ {
                    assert(forall|pe: (String, String)| #[trigger]
                        err_for(q)(pe) ==> !err_other(path@)(pe));
                    lemma_sel_filter_disjoint(
                        oldself.parse_errors@,
                        err_other(path@),
                        err_for(q),
                        err_text(),
                    );
                } else {
                    assert(forall|pe: (String, String)| #[trigger]
                        err_for(q)(pe) ==> err_other(path@)(pe));
                    lemma_sel_filter_subsume(
                        oldself.parse_errors@,
                        err_other(path@),
                        err_for(q),
                        err_text(),
                    );
                }
            }
            // The invariants survive the purge.
            broadcast use group_filter_ensures;

            assert forall|i: int| 0 <= i < self.files@.len() implies keys_v(
                (#[trigger] self.files@[i]).keys@,
            ) == sel(self.entries@, match_path(self.files@[i].path@), entry_key()) by {
                let fe = self.files@[i];
                assert(oldself.files@.filter(file_other(path@)).contains(fe));
                oldself.files@.lemma_filter_contains_rev(file_other(path@), fe);
                let i0 = choose|i0: int|
                    0 <= i0 < oldself.files@.len() && oldself.files@[i0] == fe;
                assert(keys_v(fe.keys@) == sel(
                    oldself.entries@,
                    match_path(fe.path@),
                    entry_key(),
                ));
                assert(fe.path@ != path@);
                assert(forall|en: Entry| #[trigger] match_path(fe.path@)(en) ==> keep(en));
                lemma_sel_filter_subsume(oldself.entries@, keep, match_path(fe.path@), entry_key());
            }
            assert forall|j: int| 0 <= j < self.entries@.len() implies has_path(
                self.files@,
                (#[trigger] self.entries@[j]).loc.path@,
            ) by {
                let en = self.entries@[j];
                assert(oldself.entries@.filter(keep).contains(en));
                oldself.entries@.lemma_filter_contains_rev(keep, en);
                let j0 = choose|j0: int|
                    0 <= j0 < oldself.entries@.len() && oldself.entries@[j0] == en;
                let i0 = choose|i0: int|
                    0 <= i0 < oldself.files@.len() && (#[trigger] oldself.files@[i0]).path@
                        == en.loc.path@;
                let fe = oldself.files@[i0];
                assert(file_other(path@)(fe));
                oldself.files@.lemma_filter_contains(file_other(path@), i0);
                assert(self.files@.contains(fe));
                let i1 = choose|i1: int| 0 <= i1 < self.files@.len() && self.files@[i1] == fe;
                assert(self.files@[i1].path@ == en.loc.path@);
                assert(has_path(self.files@, en.loc.path@));
            }
            assert(files_consistent(self.files@, self.entries@));
            assert(files_complete(self.files@, self.entries@));
        }
    }
}

/// The contents of a list of locations.
pub open spec fn locs_v(v: Seq<LocationInfo>) -> Seq<LocV> {
    v.map_values(|l: LocationInfo| loc_v(l))
}

/// What (re)indexing a file does to the store: for every key, the prior
/// locations of that path are gone and the file's own contributions
/// stand appended, in finding order.
pub open spec fn reindexed(
    pre: ProjectIndex,
    post: ProjectIndex,
    path: Seq<char>,
    findings: Seq<Finding>,
) -> bool {
    forall|e: EntityType, n: Seq<char>| #![all_triggers]
        post.locs_of(e, n) == pre.locs_of(e, n).filter(loc_path_ne(path)) + file_locs(
            path,
            findings,
            e,
            n,
        )
}

/// The parse error of `path` is cleared and every other file's parse
/// error is kept.
pub open spec fn error_cleared(pre: ProjectIndex, post: ProjectIndex, path: Seq<char>) -> bool {
    forall|q: Seq<char>|
        post.parse_error_of(q) == if q == path {
            None::<Seq<char>>
        } else {
            pre.parse_error_of(q)
        }
}

impl ProjectIndex {
    /// Replaces the indexed content of one file: every prior entry for
    /// the path is purged first, then the file's findings are
    /// materialized in order, so a reader never resolves stale and fresh
    /// records together. Entries of other files are untouched, and any
    /// recorded parse error for the path is cleared.
    pub fn add_file(&mut self, file: FileIndex)
        requires
            old(self).wf(),
        ensures
            final(self).wf(),
            reindexed(*old(self), *final(self), file.path@, file.findings@),
            error_cleared(*old(self), *final(self), file.path@),
            final(self).file_keys(file.path@) == file.findings@.map_values(
                |f: Finding| KeyV { entity: f.entity, name: f.key@ },
            ),
            final(self).reference_limit == old(self).reference_limit,
    {
        self.remove_file(file.path.as_str());
        let ghost mid = *self;
        let ghost base = self.entries@;
        let ghost fsnap = self.files@;
        let ghost esnap = self.parse_errors@;
        let ghost fpath = file.path@;
        let FileIndex { path, mut findings } = file;
        let ghost all = findings@;
        let mut keys: Vec<IndexKey> = Vec::new();
        let ghost mut done: int = 0;
        proof {
            assert(all.take(0) =~= Seq::<Finding>::empty());
            assert forall|e: EntityType, n: Seq<char>| #![all_triggers]
                sel(self.entries@, match_key(e, n), entry_loc()) == sel(
                    base,
                    match_key(e, n),
                    entry_loc(),
                ) + file_locs(fpath, all.take(0), e, n) by {
                lemma_sel_empty(match_finding(e, n), finding_to_loc(fpath));
                assert(sel(base, match_key(e, n), entry_loc()) + Seq::<LocV>::empty() =~= sel(
                    base,
                    match_key(e, n),
                    entry_loc(),
                ));
            }
            assert(keys_v(keys@) =~= Seq::<KeyV>::empty());
            assert(all.take(0).map_values(|f: Finding| KeyV { entity: f.entity, name: f.key@ })
                =~= Seq::<KeyV>::empty());
            assert forall|i: int| 0 <= i < fsnap.len() implies (#[trigger] fsnap[i]).path@
                != fpath by {
                assert(file_other(fpath)(fsnap[i]));
            }
        }
        while findings.len() > 0
            invariant
                0 <= done <= all.len(),
                findings@ == all.skip(done),
                path@ == fpath,
                self.files@ == fsnap,
                self.parse_errors@ == esnap,
                self.reference_limit == mid.reference_limit,
                self.cache.is_clear(),
                files_consistent(fsnap, base),
                files_complete(fsnap, base),
                forall|i: int| 0 <= i < fsnap.len() ==> (#[trigger] fsnap[i]).path@ != fpath,
                self.entries@.len() == base.len() + done,
                forall|j: int| 0 <= j < base.len() ==> self.entries@[j] == base[j],
                forall|j: int|
                    base.len() <= j < self.entries@.len() ==> (#[trigger] self.entries@[j]).loc.path@
                        == fpath,
                forall|e: EntityType, n: Seq<char>| #![all_triggers]
                    sel(self.entries@, match_key(e, n), entry_loc()) == sel(
                        base,
                        match_key(e, n),
                        entry_loc(),
                    ) + file_locs(fpath, all.take(done), e, n),
                keys_v(keys@) == sel(self.entries@, match_path(fpath), entry_key()),
                keys_v(keys@) == all.take(done).map_values(
                    |f: Finding| KeyV { entity: f.entity, name: f.key@ },
                ),
                forall|q: Seq<char>|
                    q != fpath ==> sel(self.entries@, #[trigger] match_path(q), entry_key()) == sel(
                        base,
                        match_path(q),
                        entry_key(),
                    ),
            decreases findings@.len(),
        {
            let f = findings.remove(0);
            proof {
                assert(f == all[done]);
            }
            let Finding { key: fname, entity, behavior, range, parameters, return_type, fields, attributes } = f;
            let key = IndexKey { entity, name: fname };
            let key2 = key.clone();
            let loc = LocationInfo {
                path: path.clone(),
                range,
                behavior,
                parameters,
                return_type,
                fields,
                attributes,
            };
            let ghost prev = self.entries@;
            let ghost prevkeys = keys@;
            self.entries.push(Entry { key, loc });
            keys.push(key2);
            proof {
                let en = self.entries@[prev.len() as int];
                assert(self.entries@ =~= prev.push(en));
                assert(all.take(done + 1) =~= all.take(done).push(all[done]));
                assert(entry_loc()(en) =~= finding_to_loc(fpath)(all[done]));
                assert forall|e: EntityType, n: Seq<char>| #![all_triggers]
                    sel(self.entries@, match_key(e, n), entry_loc()) == sel(
                        base,
                        match_key(e, n),
                        entry_loc(),
                    ) + file_locs(fpath, all.take(done + 1), e, n) by {
                    lemma_sel_push(prev, en, match_key(e, n), entry_loc());
                    lemma_sel_push(all.take(done), all[done], match_finding(e, n), finding_to_loc(fpath));
                    assert(match_key(e, n)(en) == match_finding(e, n)(all[done]));
                    if match_key(e, n)(en) {
                        assert(sel(base, match_key(e, n), entry_loc()) + file_locs(
                            fpath,
                            all.take(done),
                            e,
                            n,
                        ).push(entry_loc()(en)) =~= (sel(base, match_key(e, n), entry_loc())
                            + file_locs(fpath, all.take(done), e, n)).push(entry_loc()(en)));
                    }
                }
                lemma_sel_push(prev, en, match_path(fpath), entry_key());
                assert(match_path(fpath)(en));
                assert(keys_v(keys@) =~= keys_v(prevkeys).push(key_v(en.key)));
                assert(keys_v(keys@) =~= all.take(done + 1).map_values(
                    |f: Finding| KeyV { entity: f.entity, name: f.key@ },
                ));
                assert forall|q: Seq<char>| q != fpath implies sel(
                    self.entries@,
                    #[trigger] match_path(q),
                    entry_key(),
                ) == sel(base, match_path(q), entry_key()) by {
                    lemma_sel_push(prev, en, match_path(q), entry_key());
                    assert(!match_path(q)(en));
                }
                done = done + 1;
                assert(findings@ =~= all.skip(done));
            }
        }
        proof {
            assert(all.take(done) =~= all);
        }
        let ghost prevfiles = self.files@;
        let ghost keysfinal = keys@;
        proof {
            assert(keys_v(keysfinal) == sel(self.entries@, match_path(fpath), entry_key()));
            assert(keys_v(keysfinal) == all.take(done).map_values(
                |f: Finding| KeyV { entity: f.entity, name: f.key@ },
            ));
        }
        self.files.push(FileEntry { path, keys });
        proof {
            let fe = self.files@[prevfiles.len() as int];
            assert(self.files@ =~= prevfiles.push(fe));
            assert forall|i: int| 0 <= i < self.files@.len() implies keys_v(
                (#[trigger] self.files@[i]).keys@,
            ) == sel(self.entries@, match_path(self.files@[i].path@), entry_key()) by {
                if i < prevfiles.len() {
                    assert(self.files@[i] == fsnap[i]);
                    assert(keys_v(fsnap[i].keys@) == sel(base, match_path(fsnap[i].path@), entry_key()));
                    assert(fsnap[i].path@ != fpath);
                } else {
                    assert(self.files@[i] == fe);
                    assert(fe.path@ == fpath);
                }
            }
            assert forall|j: int| 0 <= j < self.entries@.len() implies has_path(
                self.files@,
                (#[trigger] self.entries@[j]).loc.path@,
            ) by {
                if j < base.len() {
                    assert(self.entries@[j] == base[j]);
                    assert(has_path(fsnap, base[j].loc.path@));
                    let i0 = choose|i0: int|
                        0 <= i0 < fsnap.len() && (#[trigger] fsnap[i0]).path@ == base[j].loc.path@;
                    assert(self.files@[i0].path@ == self.entries@[j].loc.path@);
                } else {
                    assert(self.entries@[j].loc.path@ == fpath);
                    assert(self.files@[prevfiles.len() as int].path@ == fpath);
                }
            }
            // Chain the loop summary through the purge's contract.
            assert(done == all.len());
            assert(all.take(done) == all) by {
                assert(all.take(done) =~= all);
            }
            assert forall|e: EntityType, n: Seq<char>| #![all_triggers]
                self.locs_of(e, n) == old(self).locs_of(e, n).filter(loc_path_ne(fpath))
                    + file_locs(fpath, all, e, n) by {
                assert(sel(self.entries@, match_key(e, n), entry_loc()) == sel(
                    base,
                    match_key(e, n),
                    entry_loc(),
                ) + file_locs(fpath, all.take(done), e, n));
                assert(sel(base, match_key(e, n), entry_loc()) == old(self).locs_of(e, n).filter(
                    loc_path_ne(fpath),
                ));
            }
            assert(reindexed(*old(self), *self, fpath, all));
            assert(self.file_keys(fpath) == all.map_values(
                |f: Finding| KeyV { entity: f.entity, name: f.key@ },
            )) by {
                assert(keys_v(keysfinal) == sel(self.entries@, match_path(fpath), entry_key()));
                assert(all.take(done).map_values(
                    |f: Finding| KeyV { entity: f.entity, name: f.key@ },
                ) =~= all.map_values(|f: Finding| KeyV { entity: f.entity, name: f.key@ }));
            }
            assert forall|q: Seq<char>|
                self.parse_error_of(q) == (if q == fpath {
                    None::<Seq<char>>
                } else {
                    old(self).parse_error_of(q)
                }) by {
                assert(mid.parse_error_of(q) == if q == fpath {
                    None::<Seq<char>>
                } else {
                    old(self).parse_error_of(q)
                });
                assert(self.parse_errors@ == mid.parse_errors@);
            }
            assert(error_cleared(*old(self), *self, fpath));
        }
    }

    /// All locations the key (`entity`, `name`) currently resolves to,
    /// in storage order.
    pub fn get_locations(&self, entity: EntityType, name: &str) -> (r: Vec<LocationInfo>)
        ensures
            locs_v(r@) == self.locs_of(entity, name@),
    {
        let mut r: Vec<LocationInfo> = Vec::new();
        let mut i: usize = 0;
        proof {
            assert(self.entries@.take(0) =~= Seq::<Entry>::empty());
            lemma_sel_empty(match_key(entity, name@), entry_loc());
            assert(locs_v(r@) =~= Seq::<LocV>::empty());
        }
        while i < self.entries.len()
            invariant
                0 <= i <= self.entries@.len(),
                locs_v(r@) == sel(
                    self.entries@.take(i as int),
                    match_key(entity, name@),
                    entry_loc(),
                ),
            decreases self.entries@.len() - i,
        {
            let ghost prevr = r@;
            let en = &self.entries[i];
            let hit = en.key.entity == entity && str_eq(en.key.name.as_str(), name);
            if hit {
                r.push(en.loc.clone());
            }
            proof {
                assert(self.entries@.take(i + 1) =~= self.entries@.take(i as int).push(
                    self.entries@[i as int],
                ));
                lemma_sel_push(
                    self.entries@.take(i as int),
                    self.entries@[i as int],
                    match_key(entity, name@),
                    entry_loc(),
                );
                if hit {
                    assert(locs_v(r@) =~= locs_v(prevr).push(loc_v(r@[r@.len() - 1])));
                } else {
                    assert(locs_v(r@) =~= locs_v(prevr));
                }
            }
            i += 1;
        }
        proof {
            assert(self.entries@.take(self.entries@.len() as int) =~= self.entries@);
        }
        r
    }

    /// Records a parse error for a file, replacing any prior one, and
    /// purges the file's entries: a failing file's stale symbols
    /// disappear until the same path parses successfully again.
    pub fn set_parse_error(&mut self, path: String, error: String)
        requires
            old(self).wf(),
        ensures
            final(self).wf(),
            forall|e: EntityType, n: Seq<char>| #![all_triggers]
                final(self).locs_of(e, n) == old(self).locs_of(e, n).filter(loc_path_ne(path@)),
            final(self).reference_limit == old(self).reference_limit,
            forall|q: Seq<char>|
                final(self).parse_error_of(q) == if q == path@ {
                    Some(error@)
                } else {
                    old(self).parse_error_of(q)
                },
    {
        self.remove_file(path.as_str());
        let ghost mid0 = *self;
        let ghost orig = self.parse_errors@;
        let ghost mid = self.parse_errors@;
        self.parse_errors.push((path, error));
        proof {
            let pe = self.parse_errors@[mid.len() as int];
            assert(self.parse_errors@ =~= mid.push(pe));
            assert forall|q: Seq<char>|
                self.parse_error_of(q) == (if q == pe.0@ {
                    Some(pe.1@)
                } else {
                    old(self).parse_error_of(q)
                }) by {
                lemma_sel_push(mid, pe, err_for(q), err_text());
                if q == pe.0@ {
                    assert(mid0.parse_error_of(q) is None);
                    assert(sel(mid, err_for(q), err_text()).len() == 0);
                } else {
                    assert(!err_for(q)(pe));
                    assert(mid0.parse_error_of(q) == old(self).parse_error_of(q));
                }
            }
        }
    }

    /// The parse error recorded for a file, if any.
    pub fn get_parse_error(&self, path: &str) -> (r: Option<String>)
        ensures
            opt_str_v(r) == self.parse_error_of(path@),
    {
        let mut i: usize = 0;
        while i < self.parse_errors.len()
            invariant
                0 <= i <= self.parse_errors@.len(),
                forall|j: int| 0 <= j < i ==> !err_for(path@)(#[trigger] self.parse_errors@[j]),
            decreases self.parse_errors@.len() - i,
        {
            if str_eq(self.parse_errors[i].0.as_str(), path) {
                let res = self.parse_errors[i].1.clone();
                proof {
                    assert(err_for(path@)(self.parse_errors@[i as int]));
                    lemma_sel_first(self.parse_errors@, err_for(path@), err_text(), i as int);
                }
                return Some(res);
            }
            i += 1;
        }
        proof {
            lemma_filter_none(self.parse_errors@, err_for(path@));
            assert(sel(self.parse_errors@, err_for(path@), err_text()) =~= Seq::<Seq<char>>::empty());
        }
        None
    }
}

/// The file's keys with later repetitions dropped: the first occurrence
/// fixes a key's position.
pub open spec fn dedup_first(keys: Seq<crate::indexer::KeyV>) -> Seq<crate::indexer::KeyV>
    decreases keys.len(),
{
    if keys.len() == 0 {
        Seq::empty()
    } else {
        let rest = dedup_first(keys.drop_last());
        if rest.contains(keys.last()) {
            rest
        } else {
            rest.push(keys.last())
        }
    }
}

/// The distinct keys of a key list, first occurrence first.
pub fn dedup_keys(keys: &Vec<IndexKey>) -> (r: Vec<IndexKey>)
    ensures
        keys_v(r@) == dedup_first(keys_v(keys@)),
{
    let ghost kv = keys_v(keys@);
    let mut r: Vec<IndexKey> = Vec::new();
    let mut i: usize = 0;
    proof {
        assert(kv.take(0) =~= Seq::<KeyV>::empty());
        assert(keys_v(r@) =~= Seq::<KeyV>::empty());
        assert(dedup_first(kv.take(0)) =~= Seq::<KeyV>::empty());
    }
    while i < keys.len()
        invariant
            0 <= i <= keys@.len(),
            kv == keys_v(keys@),
            keys_v(r@) == dedup_first(kv.take(i as int)),
        decreases keys@.len() - i,
    {
        let ghost prevr = r@;
        let mut seen = false;
        let mut j: usize = 0;
        while j < r.len() && !seen
            invariant
                0 <= j <= r@.len(),
                i < keys@.len(),
                !seen ==> forall|l: int|
                    0 <= l < j ==> keys_v(r@)[l] != keys_v(
                        keys@,
                    )[i as int],
                seen ==> keys_v(r@).contains(
                    keys_v(keys@)[i as int],
                ),
            decreases r@.len() - j + (if seen { 0int } else { 1int }),
        {
            if r[j].entity == keys[i].entity && str_eq(r[j].name.as_str(), keys[i].name.as_str()) {
                proof {
                    assert(keys_v(r@)[j as int] =~= keys_v(
                        keys@,
                    )[i as int]);
                }
                seen = true;
            } else {
                proof {
                    assert(keys_v(r@)[j as int].entity == r@[j as int].entity);
                    assert(keys_v(r@)[j as int].name == r@[j as int].name@);
                }
                j += 1;
            }
        }
        if !seen {
            r.push(keys[i].clone());
        }
        proof {
            assert(kv.take(i + 1) =~= kv.take(i as int).push(kv[i as int]));
            assert(kv.take(i + 1).drop_last() =~= kv.take(i as int));
            if seen {
                assert(keys_v(r@) =~= dedup_first(kv.take(i + 1)));
            } else {
                assert(!dedup_first(kv.take(i as int)).contains(kv[i as int])) by {
                    if dedup_first(kv.take(i as int)).contains(kv[i as int]) {
                        let w = choose|w: int|
                            0 <= w < prevr.len() && keys_v(prevr)[w] == kv[
                                i as int
                            ];
                        assert(false);
                    }
                }
                assert(keys_v(r@) =~= keys_v(prevr).push(
                    key_v(r@[r@.len() - 1]),
                ));
                assert(keys_v(r@) =~= dedup_first(kv.take(i + 1)));
            }
        }
        i += 1;
    }
    proof {
        assert(kv.take(kv.len() as int) =~= kv);
    }
    r
}

/// Collects the keys stored for one file, in entry order.
pub fn collect_file_keys(px: &ProjectIndex, path: &str) -> (r: Vec<IndexKey>)
    ensures
        keys_v(r@) == px.file_keys(path@),
{
    let mut r: Vec<IndexKey> = Vec::new();
    let mut i: usize = 0;
    proof {
        assert(px.entries@.take(0) =~= Seq::<Entry>::empty());
        lemma_sel_empty(
            match_path(path@),
            entry_key(),
        );
        assert(keys_v(r@) =~= Seq::<KeyV>::empty());
    }
    while i < px.entries.len()
        invariant
            0 <= i <= px.entries@.len(),
            keys_v(r@) == sel(
                px.entries@.take(i as int),
                match_path(path@),
                entry_key(),
            ),
        decreases px.entries@.len() - i,
    {
        let ghost prevr = r@;
        let hit = str_eq(px.entries[i].loc.path.as_str(), path);
        if hit {
            r.push(px.entries[i].key.clone());
        }
        proof {
            assert(px.entries@.take(i + 1) =~= px.entries@.take(i as int).push(
                px.entries@[i as int],
            ));
            lemma_sel_push(
                px.entries@.take(i as int),
                px.entries@[i as int],
                match_path(path@),
                entry_key(),
            );
            if hit {
                assert(keys_v(r@) =~= keys_v(prevr).push(
                    key_v(r@[r@.len() - 1]),
                ));
            } else {
                assert(keys_v(r@) =~= keys_v(prevr));
            }
        }
        i += 1;
    }
    proof {
        assert(px.entries@.take(px.entries@.len() as int) =~= px.entries@);
    }
    r
}


/// Removes in place every entry stored for `path`.
fn retain_entries(v: &mut Vec<Entry>, path: &str)
    ensures
        final(v)@ == old(v)@.filter(keep_other_path(path@)),
{
    let ghost orig = v@;
    let ghost keep = keep_other_path(path@);
    let mut i: usize = 0;
    let ghost mut k: int = 0;
    while i < v.len()
        invariant
            0 <= k <= orig.len(),
            v@ == orig.take(k).filter(keep) + orig.skip(k),
            i == orig.take(k).filter(keep).len(),
            keep == keep_other_path(path@),
        decreases orig.len() - k,
    {
        proof {
            assert(v@[i as int] == orig.skip(k)[0]);
            assert(orig.skip(k)[0] == orig[k]);
            lemma_filter_take_step(orig, k, keep);
        }
        if str_eq(v[i].loc.path.as_str(), path) {
            v.remove(i);
            proof {
                assert(v@ =~= orig.take(k + 1).filter(keep) + orig.skip(k + 1));
                k = k + 1;
            }
        } else {
            i += 1;
            proof {
                assert(v@ =~= orig.take(k + 1).filter(keep) + orig.skip(k + 1));
                k = k + 1;
            }
        }
    }
    proof {
        assert(orig.skip(k).len() == 0);
        assert(k == orig.len());
        assert(orig.take(k) =~= orig);
    }
}

/// Removes in place every file record for `path`.
fn retain_files(v: &mut Vec<FileEntry>, path: &str)
    ensures
        final(v)@ == old(v)@.filter(file_other(path@)),
{
    let ghost orig = v@;
    let ghost keep = file_other(path@);
    let mut i: usize = 0;
    let ghost mut k: int = 0;
    while i < v.len()
        invariant
            0 <= k <= orig.len(),
            v@ == orig.take(k).filter(keep) + orig.skip(k),
            i == orig.take(k).filter(keep).len(),
            keep == file_other(path@),
        decreases orig.len() - k,
    {
        proof {
            assert(v@[i as int] == orig.skip(k)[0]);
            assert(orig.skip(k)[0] == orig[k]);
            lemma_filter_take_step(orig, k, keep);
        }
        if str_eq(v[i].path.as_str(), path) {
            v.remove(i);
            proof {
                assert(v@ =~= orig.take(k + 1).filter(keep) + orig.skip(k + 1));
                k = k + 1;
            }
        } else {
            i += 1;
            proof {
                assert(v@ =~= orig.take(k + 1).filter(keep) + orig.skip(k + 1));
                k = k + 1;
            }
        }
    }
    proof {
        assert(orig.skip(k).len() == 0);
        assert(k == orig.len());
        assert(orig.take(k) =~= orig);
    }
}

/// Removes in place every parse-error record for `path`.
fn retain_errors(v: &mut Vec<(String, String)>, path: &str)
    ensures
        final(v)@ == old(v)@.filter(err_other(path@)),
{
    let ghost orig = v@;
    let ghost keep = err_other(path@);
    let mut i: usize = 0;
    let ghost mut k: int = 0;
    while i < v.len()
        invariant
            0 <= k <= orig.len(),
            v@ == orig.take(k).filter(keep) + orig.skip(k),
            i == orig.take(k).filter(keep).len(),
            keep == err_other(path@),
        decreases orig.len() - k,
    {
        proof {
            assert(v@[i as int] == orig.skip(k)[0]);
            assert(orig.skip(k)[0] == orig[k]);
            lemma_filter_take_step(orig, k, keep);
        }
        if str_eq(v[i].0.as_str(), path) {
            v.remove(i);
            proof {
                assert(v@ =~= orig.take(k + 1).filter(keep) + orig.skip(k + 1));
                k = k + 1;
            }
        } else {
            i += 1;
            proof {
                assert(v@ =~= orig.take(k + 1).filter(keep) + orig.skip(k + 1));
                k = k + 1;
            }
        }
    }
    proof {
        assert(orig.skip(k).len() == 0);
        assert(k == orig.len());
        assert(orig.take(k) =~= orig);
    }
}

} // verus!

