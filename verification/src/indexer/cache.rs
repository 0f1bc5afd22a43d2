//! Derived caches over the store. Each cache only ever holds values
//! equal to what a fresh computation over the current entries yields;
//! that validity is part of the index's well-formedness, so every
//! mutation must invalidate before it changes the entries.

use crate::indexer::{
    entry_loc, loc_v, match_key, Entry, IndexKey, LocV, LocationInfo, ProjectIndex,
};
use crate::seq_util::{lemma_sel_contains, lemma_sel_empty, lemma_sel_push, sel};
use crate::syntax::{Behavior, EntityType};
use crate::text::str_eq;
use crate::Range;
use vstd::prelude::*;

verus! {

/// Whether a command has a backend definition and frontend calls.
#[derive(Clone, Copy, Debug, Default, PartialEq, Eq, Structural)]
pub struct CommandStatus {
    pub has_definition: bool,
    pub has_calls: bool,
}

/// Whether an event has emitters and listeners.
#[derive(Clone, Copy, Debug, Default, PartialEq, Eq, Structural)]
pub struct EventStatus {
    pub has_emitters: bool,
    pub has_listeners: bool,
}

/// The per-key presence aggregate: which of the four behaviors occur
/// among the key's locations.
#[derive(Clone, Copy, Debug, Default, PartialEq, Eq, Structural)]
pub struct DiagnosticInfo {
    pub command: CommandStatus,
    pub event: EventStatus,
}

/// Whether some location in `locs` uses its symbol as `b`.
pub open spec fn has_behavior(locs: Seq<LocV>, b: Behavior) -> bool {
    exists|i: int| 0 <= i < locs.len() && (#[trigger] locs[i]).behavior == b
}

/// The aggregate a set of locations induces.
pub open spec fn diag_spec(locs: Seq<LocV>) -> DiagnosticInfo {
    DiagnosticInfo {
        command: CommandStatus {
            has_definition: has_behavior(locs, Behavior::Definition),
            has_calls: has_behavior(locs, Behavior::Call),
        },
        event: EventStatus {
            has_emitters: has_behavior(locs, Behavior::Emit),
            has_listeners: has_behavior(locs, Behavior::Listen),
        },
    }
}

impl DiagnosticInfo {
    pub fn has_definition(&self) -> (r: bool)
        ensures
            r == self.command.has_definition,
    {
        self.command.has_definition
    }

    pub fn has_calls(&self) -> (r: bool)
        ensures
            r == self.command.has_calls,
    {
        self.command.has_calls
    }

    pub fn has_emitters(&self) -> (r: bool)
        ensures
            r == self.event.has_emitters,
    {
        self.event.has_emitters
    }

    pub fn has_listeners(&self) -> (r: bool)
        ensures
            r == self.event.has_listeners,
    {
        self.event.has_listeners
    }
}

/// The first definition among the entries for a key, scanning in
/// storage order.
pub open spec fn first_def_of(entries: Seq<Entry>, e: EntityType, n: Seq<char>) -> Option<LocV>
    decreases entries.len(),
{
    if entries.len() == 0 {
        None
    } else if match_key(e, n)(entries[0]) && entries[0].loc.behavior == Behavior::Definition {
        Some(loc_v(entries[0].loc))
    } else {
        first_def_of(entries.drop_first(), e, n)
    }
}

/// The content of an optional location.
pub open spec fn opt_loc_v(l: Option<LocationInfo>) -> Option<LocV> {
    match l {
        Some(x) => Some(loc_v(x)),
        None => None,
    }
}

/// Selects entries of one entity kind.
pub open spec fn has_entity(e: EntityType) -> spec_fn(Entry) -> bool {
    |en: Entry| en.key.entity == e
}

/// Reads the name of an entry's key.
pub open spec fn entry_name() -> spec_fn(Entry) -> Seq<char> {
    |en: Entry| en.key.name@
}

/// A name list with later repetitions dropped: the first occurrence
/// fixes a name's position.
pub open spec fn dedup_names(ns: Seq<Seq<char>>) -> Seq<Seq<char>>
    decreases ns.len(),
{
    if ns.len() == 0 {
        Seq::empty()
    } else {
        let rest = dedup_names(ns.drop_last());
        if rest.contains(ns.last()) {
            rest
        } else {
            rest.push(ns.last())
        }
    }
}

/// The distinct names of one entity kind, in first-occurrence order of
/// the stored entries.
pub open spec fn entity_names(entries: Seq<Entry>, e: EntityType) -> Seq<Seq<char>> {
    dedup_names(sel(entries, has_entity(e), entry_name()))
}

/// What a well-formed name list for entity kind `e` looks like: the
/// names are exactly the stored kind's distinct names in
/// first-occurrence order, each resolving to at least one location and
/// carrying the first definition on record.
pub open spec fn names_ok(
    rs: Seq<(String, Option<LocationInfo>)>,
    entries: Seq<Entry>,
    e: EntityType,
) -> bool {
    &&& rs.map_values(|p: (String, Option<LocationInfo>)| p.0@) == entity_names(entries, e)
    &&& forall|k: int|
        0 <= k < rs.len() ==> sel(entries, match_key(e, (#[trigger] rs[k]).0@), entry_loc()).len()
            > 0
    &&& forall|k: int|
        0 <= k < rs.len() ==> opt_loc_v((#[trigger] rs[k]).1) == first_def_of(entries, e, rs[k].0@)
}

/// The cache manager: results of earlier queries, each provably equal
/// to a fresh computation over the entries recorded beside it.
#[derive(Debug)]
pub struct CacheManager {
    pub command_names: Option<Vec<(String, Option<LocationInfo>)>>,
    pub event_names: Option<Vec<(String, Option<LocationInfo>)>>,
    pub diagnostic_info: Vec<(IndexKey, DiagnosticInfo)>,
    pub position_index: Vec<(String, Vec<(Range, IndexKey)>)>,
}

impl CacheManager {
    /// A cache with nothing memoized.
    pub fn new() -> (r: Self)
        ensures
            r.is_clear(),
    {
        CacheManager {
            command_names: None,
            event_names: None,
            diagnostic_info: Vec::new(),
            position_index: Vec::new(),
        }
    }

    /// Whether nothing is memoized.
    pub open spec fn is_clear(self) -> bool {
        &&& self.command_names is None
        &&& self.event_names is None
        &&& self.diagnostic_info@.len() == 0
        &&& self.position_index@.len() == 0
    }

    /// Drops every memoized result.
    pub fn invalidate_all(&mut self)
        ensures
            final(self).is_clear(),
    {
        self.command_names = None;
        self.event_names = None;
        self.diagnostic_info = Vec::new();
        self.position_index = Vec::new();
    }

    /// Drops every memoized result that a change to one file could
    /// stale: the global name lists, the per-key aggregates and the
    /// spatial index.
    pub fn invalidate_file(&mut self, path: &str)
        ensures
            final(self).is_clear(),
    {
        let _ = path;
        self.invalidate_all();
    }
}

/// Whether every memoized value in `c` agrees with a fresh computation
/// over `entries`.
pub open spec fn cache_valid(c: CacheManager, entries: Seq<Entry>) -> bool {
    &&& match c.command_names {
        Some(v) => names_ok(v@, entries, EntityType::Command),
        None => true,
    }
    &&& match c.event_names {
        Some(v) => names_ok(v@, entries, EntityType::Event),
        None => true,
    }
    &&& forall|i: int|
        0 <= i < c.diagnostic_info@.len() ==> (#[trigger] c.diagnostic_info@[i]).1 == diag_spec(
            sel(
                entries,
                match_key(c.diagnostic_info@[i].0.entity, c.diagnostic_info@[i].0.name@),
                entry_loc(),
            ),
        )
    &&& forall|i: int|
        0 <= i < c.position_index@.len() ==> pos_index_ok(
            (#[trigger] c.position_index@[i]).1@,
            entries,
            c.position_index@[i].0@,
        )
}

/// The spatial index is sorted by start position.
pub open spec fn pos_sorted(v: Seq<(Range, IndexKey)>) -> bool {
    forall|i: int, j: int|
        0 <= i < j < v.len() ==> range_start_le((#[trigger] v[i]).0, (#[trigger] v[j]).0)
}

/// Each element of the spatial index stands for a stored entry of `path`.
pub open spec fn pos_sound(v: Seq<(Range, IndexKey)>, entries: Seq<Entry>, path: Seq<char>) -> bool {
    forall|i: int|
        0 <= i < v.len() ==> exists|j: int|
            0 <= j < entries.len() && entry_pos_match(#[trigger] entries[j], #[trigger] v[i], path)
}

/// Every stored entry of `path` is represented in the spatial index.
pub open spec fn pos_complete(v: Seq<(Range, IndexKey)>, entries: Seq<Entry>, path: Seq<char>) -> bool {
    forall|j: int|
        0 <= j < entries.len() && (#[trigger] entries[j]).loc.path@ == path ==> exists|i: int|
            0 <= i < v.len() && entry_pos_match(entries[j], #[trigger] v[i], path)
}

/// The spatial index holds exactly as many elements as the path has
/// stored entries.
pub open spec fn pos_count(v: Seq<(Range, IndexKey)>, entries: Seq<Entry>, path: Seq<char>) -> bool {
    v.len() == sel(entries, crate::indexer::match_path(path), crate::indexer::entry_key()).len()
}

/// What a valid spatial index for `path` looks like: sorted by start
/// position, one element per stored entry of the path, each standing
/// for such an entry and every such entry represented.
pub open spec fn pos_index_ok(v: Seq<(Range, IndexKey)>, entries: Seq<Entry>, path: Seq<char>) -> bool {
    &&& pos_sorted(v)
    &&& pos_sound(v, entries, path)
    &&& pos_complete(v, entries, path)
    &&& pos_count(v, entries, path)
}

/// Whether the spatial-index element `p` stands for the stored entry `en`.
pub open spec fn entry_pos_match(en: Entry, p: (Range, IndexKey), path: Seq<char>) -> bool {
    &&& en.loc.path@ == path
    &&& en.loc.range == p.0
    &&& key_v_eq(en.key, p.1)
}

/// Whether two keys carry the same kind and name.
pub open spec fn key_v_eq(a: IndexKey, b: IndexKey) -> bool {
    a.entity == b.entity && a.name@ == b.name@
}

/// Start-position order on ranges: by line, then by column.
pub open spec fn range_start_le(a: Range, b: Range) -> bool {
    a.start.line < b.start.line || (a.start.line == b.start.line && a.start.character
        <= b.start.character)
}

impl ProjectIndex {
    /// The presence aggregate for `key`, memoized per key and recomputed
    /// from the stored locations on a miss.
    pub fn get_diagnostic_info(&mut self, key: &IndexKey) -> (r: DiagnosticInfo)
        requires
            old(self).wf(),
        ensures
            final(self).wf(),
            final(self).entries@ == old(self).entries@,
            final(self).files@ == old(self).files@,
            final(self).parse_errors@ == old(self).parse_errors@,
            final(self).reference_limit == old(self).reference_limit,
            r == diag_spec(final(self).locs_of(key.entity, key.name@)),
    {
        let mut i: usize = 0;
        while i < self.cache.diagnostic_info.len()
            invariant
                old(self).wf(),
                *self == *old(self),
            decreases self.cache.diagnostic_info@.len() - i,
        {
            let hit = {
                let c = &self.cache.diagnostic_info[i];
                c.0.entity == key.entity && str_eq(c.0.name.as_str(), key.name.as_str())
            };
            if hit {
                return self.cache.diagnostic_info[i].1;
            }
            i += 1;
        }
        let info = diag_of_locs(&self.entries, key);
        self.cache.diagnostic_info.push((key.clone(), info));
        proof {
            let c = self.cache;
            assert forall|i2: int| 0 <= i2 < c.diagnostic_info@.len() implies (#[trigger] c.diagnostic_info@[i2]).1
                == diag_spec(
                sel(
                    self.entries@,
                    match_key(c.diagnostic_info@[i2].0.entity, c.diagnostic_info@[i2].0.name@),
                    entry_loc(),
                ),
            ) by {
                if i2 < c.diagnostic_info@.len() - 1 {
                    assert(c.diagnostic_info@[i2] == old(self).cache.diagnostic_info@[i2]);
                }
            }
        }
        info
    }

    /// The name list for `entity`, memoized globally. Only commands and
    /// events carry name lists; other kinds yield nothing.
    pub fn get_all_names(&mut self, entity: EntityType) -> (r: Vec<(String, Option<LocationInfo>)>)
        requires
            old(self).wf(),
        ensures
            final(self).wf(),
            final(self).entries@ == old(self).entries@,
            final(self).files@ == old(self).files@,
            final(self).parse_errors@ == old(self).parse_errors@,
            final(self).reference_limit == old(self).reference_limit,
            entity == EntityType::Command || entity == EntityType::Event ==> names_ok(
                r@,
                final(self).entries@,
                entity,
            ),
            entity != EntityType::Command && entity != EntityType::Event ==> r@.len() == 0,
    {
        match entity {
            EntityType::Command => {
                if let Some(v) = &self.cache.command_names {
                    let r = clone_names(v);
                    proof {
                        lemma_names_ok_alike(v@, r@, self.entries@, entity);
                    }
                    return r;
                }
                let out = compute_names(&self.entries, entity);
                let kept = clone_names(&out);
                proof {
                    lemma_names_ok_alike(out@, kept@, self.entries@, entity);
                }
                self.cache.command_names = Some(kept);
                out
            },
            EntityType::Event => {
                if let Some(v) = &self.cache.event_names {
                    let r = clone_names(v);
                    proof {
                        lemma_names_ok_alike(v@, r@, self.entries@, entity);
                    }
                    return r;
                }
                let out = compute_names(&self.entries, entity);
                let kept = clone_names(&out);
                proof {
                    lemma_names_ok_alike(out@, kept@, self.entries@, entity);
                }
                self.cache.event_names = Some(kept);
                out
            },
            _ => Vec::new(),
        }
    }
}

/// Name-list validity only depends on the names and definition
/// contents, so it carries over to a list with the same views.
proof fn lemma_names_ok_alike(
    a: Seq<(String, Option<LocationInfo>)>,
    b: Seq<(String, Option<LocationInfo>)>,
    entries: Seq<Entry>,
    e: EntityType,
)
    requires
        names_ok(a, entries, e),
        a.len() == b.len(),
        forall|k: int| 0 <= k < a.len() ==> (#[trigger] b[k]).0@ == a[k].0@,
        forall|k: int| 0 <= k < a.len() ==> opt_loc_v((#[trigger] b[k]).1) == opt_loc_v(a[k].1),
    ensures
        names_ok(b, entries, e),
{
    assert(b.map_values(|p: (String, Option<LocationInfo>)| p.0@) =~= a.map_values(
        |p: (String, Option<LocationInfo>)| p.0@,
    ));
}

/// Clones a name list, preserving names and definition contents.
fn clone_names(v: &Vec<(String, Option<LocationInfo>)>) -> (r: Vec<(String, Option<LocationInfo>)>)
    ensures
        r@.len() == v@.len(),
        forall|k: int| 0 <= k < v@.len() ==> (#[trigger] r@[k]).0@ == v@[k].0@,
        forall|k: int| 0 <= k < v@.len() ==> opt_loc_v((#[trigger] r@[k]).1) == opt_loc_v(v@[k].1),
{
    let mut r: Vec<(String, Option<LocationInfo>)> = Vec::new();
    let mut i: usize = 0;
    while i < v.len()
        invariant
            0 <= i <= v@.len(),
            r@.len() == i,
            forall|k: int| 0 <= k < i ==> (#[trigger] r@[k]).0@ == v@[k].0@,
            forall|k: int| 0 <= k < i ==> opt_loc_v((#[trigger] r@[k]).1) == opt_loc_v(v@[k].1),
        decreases v@.len() - i,
    {
        let name = v[i].0.clone();
        let def = match &v[i].1 {
            Some(l) => Some(l.clone()),
            None => None,
        };
        r.push((name, def));
        i += 1;
    }
    r
}

/// Computes the presence aggregate of a key by one pass over the entries.
fn diag_of_locs(entries: &Vec<Entry>, key: &IndexKey) -> (r: DiagnosticInfo)
    ensures
        r == diag_spec(sel(entries@, match_key(key.entity, key.name@), entry_loc())),
{
    let ghost e = key.entity;
    let ghost n = key.name@;
    let mut r = DiagnosticInfo {
        command: CommandStatus { has_definition: false, has_calls: false },
        event: EventStatus { has_emitters: false, has_listeners: false },
    };
    let mut i: usize = 0;
    proof {
        assert(entries@.take(0) =~= Seq::<Entry>::empty());
        lemma_sel_empty(match_key(e, n), entry_loc());
    }
    while i < entries.len()
        invariant
            0 <= i <= entries@.len(),
            e == key.entity,
            n == key.name@,
            r == diag_spec(sel(entries@.take(i as int), match_key(e, n), entry_loc())),
        decreases entries@.len() - i,
    {
        let ghost prefix = sel(entries@.take(i as int), match_key(e, n), entry_loc());
        let en = &entries[i];
        let hit = en.key.entity == key.entity && str_eq(en.key.name.as_str(), key.name.as_str());
        proof {
            assert(entries@.take(i + 1) =~= entries@.take(i as int).push(entries@[i as int]));
            lemma_sel_push(
                entries@.take(i as int),
                entries@[i as int],
                match_key(e, n),
                entry_loc(),
            );
        }
        if hit {
            let b = en.loc.behavior;
            if b == Behavior::Definition {
                r.command.has_definition = true;
            } else if b == Behavior::Call {
                r.command.has_calls = true;
            } else if b == Behavior::Emit {
                r.event.has_emitters = true;
            } else {
                r.event.has_listeners = true;
            }
            proof {
                let cur = sel(entries@.take(i + 1), match_key(e, n), entry_loc());
                assert(cur == prefix.push(loc_v(entries@[i as int].loc)));
                assert forall|b2: Behavior| has_behavior(cur, b2) == (has_behavior(prefix, b2) || (
                loc_v(entries@[i as int].loc).behavior == b2)) by {
                    if has_behavior(prefix, b2) {
                        let w = choose|w: int|
                            0 <= w < prefix.len() && (#[trigger] prefix[w]).behavior == b2;
                        assert(cur[w].behavior == b2);
                    }
                    if loc_v(entries@[i as int].loc).behavior == b2 {
                        assert(cur[cur.len() - 1].behavior == b2);
                    }
                    if has_behavior(cur, b2) {
                        let w = choose|w: int|
                            0 <= w < cur.len() && (#[trigger] cur[w]).behavior == b2;
                        if w < prefix.len() {
                            assert(prefix[w].behavior == b2);
                        }
                    }
                }
            }
        }
        i += 1;
    }
    proof {
        assert(entries@.take(entries@.len() as int) =~= entries@);
    }
    r
}

/// Computes the name list for `entity` by scanning the entries: first
/// occurrence fixes a name's position, and each name carries the first
/// definition on record.
fn compute_names(entries: &Vec<Entry>, entity: EntityType) -> (r: Vec<
    (String, Option<LocationInfo>),
>)
    ensures
        names_ok(r@, entries@, entity),
{
    let mut out: Vec<(String, Option<LocationInfo>)> = Vec::new();
    let mut i: usize = 0;
    proof {
        assert(entries@.take(0) =~= Seq::<Entry>::empty());
        lemma_sel_empty(has_entity(entity), entry_name());
        assert(out@.map_values(|p: (String, Option<LocationInfo>)| p.0@) =~= Seq::<
            Seq<char>,
        >::empty());
        assert(dedup_names(sel(entries@.take(0), has_entity(entity), entry_name())) =~= Seq::<
            Seq<char>,
        >::empty());
    }
    while i < entries.len()
        invariant
            0 <= i <= entries@.len(),
            out@.map_values(|p: (String, Option<LocationInfo>)| p.0@) == dedup_names(
                sel(entries@.take(i as int), has_entity(entity), entry_name()),
            ),
            forall|k: int|
                0 <= k < out@.len() ==> sel(
                    entries@,
                    match_key(entity, (#[trigger] out@[k]).0@),
                    entry_loc(),
                ).len() > 0,
            forall|k: int|
                0 <= k < out@.len() ==> opt_loc_v((#[trigger] out@[k]).1) == first_def_of(
                    entries@,
                    entity,
                    out@[k].0@,
                ),
        decreases entries@.len() - i,
    {
        let en = &entries[i];
        let ghost ns = sel(entries@.take(i as int), has_entity(entity), entry_name());
        let ghost outnames = out@.map_values(|p: (String, Option<LocationInfo>)| p.0@);
        proof {
            assert(entries@.take(i + 1) =~= entries@.take(i as int).push(entries@[i as int]));
            lemma_sel_push(
                entries@.take(i as int),
                entries@[i as int],
                has_entity(entity),
                entry_name(),
            );
        }
        if en.key.entity == entity {
            let mut seen = false;
            let mut k: usize = 0;
            while k < out.len() && !seen
                invariant
                    0 <= k <= out@.len(),
                    !seen ==> forall|l: int|
                        0 <= l < k ==> (#[trigger] out@[l]).0@ != en.key.name@,
                    seen ==> exists|l: int|
                        0 <= l < out@.len() && (#[trigger] out@[l]).0@ == en.key.name@,
                    en == &entries@[i as int],
                    i < entries@.len(),
                decreases out@.len() - k + (if seen { 0int } else { 1int }),
            {
                if str_eq(out[k].0.as_str(), en.key.name.as_str()) {
                    seen = true;
                } else {
                    k += 1;
                }
            }
            proof {
                assert(sel(entries@.take(i + 1), has_entity(entity), entry_name()) =~= ns.push(
                    en.key.name@,
                ));
                assert(ns.push(en.key.name@).drop_last() =~= ns);
                if seen {
                    let l = choose|l: int|
                        0 <= l < out@.len() && (#[trigger] out@[l]).0@ == en.key.name@;
                    assert(outnames[l] == en.key.name@);
                    assert(dedup_names(ns).contains(en.key.name@));
                } else {
                    assert(!dedup_names(ns).contains(en.key.name@)) by {
                        if dedup_names(ns).contains(en.key.name@) {
                            let w = choose|w: int|
                                0 <= w < outnames.len() && outnames[w] == en.key.name@;
                            assert(out@[w].0@ == en.key.name@);
                            assert(false);
                        }
                    }
                }
            }
            if !seen {
                let def = find_first_def(entries, entity, en.key.name.as_str());
                let ghost prevout = out@;
                out.push((en.key.name.clone(), def));
                proof {
                    let last = out@.len() - 1;
                    assert(out@[last].0@ == en.key.name@);
                    assert(match_key(entity, en.key.name@)(entries@[i as int]));
                    lemma_sel_contains(
                        entries@,
                        match_key(entity, en.key.name@),
                        entry_loc(),
                        i as int,
                    );
                    assert(sel(entries@, match_key(entity, en.key.name@), entry_loc()).len() > 0);
                    assert(out@.map_values(|p: (String, Option<LocationInfo>)| p.0@)
                        =~= outnames.push(en.key.name@));
                }
            }
        } else {
            proof {
                assert(sel(entries@.take(i + 1), has_entity(entity), entry_name()) =~= ns);
            }
        }
        i += 1;
    }
    proof {
        assert(entries@.take(entries@.len() as int) =~= entries@);
    }
    out
}

/// The first definition recorded for (`entity`, `name`), if any.
fn find_first_def(entries: &Vec<Entry>, entity: EntityType, name: &str) -> (r: Option<LocationInfo>)
    ensures
        opt_loc_v(r) == first_def_of(entries@, entity, name@),
{
    let mut i: usize = 0;
    proof {
        assert(entries@.skip(0) =~= entries@);
    }
    while i < entries.len()
        invariant
            0 <= i <= entries@.len(),
            first_def_of(entries@, entity, name@) == first_def_of(
                entries@.skip(i as int),
                entity,
                name@,
            ),
        decreases entries@.len() - i,
    {
        let en = &entries[i];
        let hit = en.key.entity == entity && str_eq(en.key.name.as_str(), name)
            && en.loc.behavior == Behavior::Definition;
        proof {
            assert(entries@.skip(i as int)[0] == entries@[i as int]);
            assert(entries@.skip(i as int).drop_first() =~= entries@.skip(i + 1));
        }
        if hit {
            return Some(en.loc.clone());
        }
        i += 1;
    }
    proof {
        assert(entries@.skip(entries@.len() as int).len() == 0);
    }
    None
}

} // verus!
