//! Symbol listings over the store: the outline of one file and
//! case-insensitive workspace-wide symbol search with a capped result
//! list.

use crate::indexer::{match_path, Entry, ProjectIndex};
use crate::seq_util::{lemma_sel_empty, lemma_sel_prefix, lemma_sel_push, sel};
use crate::syntax::{Behavior, EntityType};
use crate::text::{contains_sub, lower_of, lowercase, occurs_from, str_eq};
use crate::Range;
use vstd::prelude::*;

verus! {

/// One listed symbol occurrence.
#[derive(Debug)]
pub struct SymbolEntry {
    pub name: String,
    pub entity: EntityType,
    pub behavior: Behavior,
    pub path: String,
    pub range: Range,
}

impl Clone for SymbolEntry {
    fn clone(&self) -> (r: Self)
        ensures
            sym_v(r) == sym_v(*self),
    {
        SymbolEntry {
            name: self.name.clone(),
            entity: self.entity,
            behavior: self.behavior,
            path: self.path.clone(),
            range: self.range,
        }
    }
}

/// The mathematical content of a listed symbol.
#[verifier::ext_equal]
pub ghost struct SymV {
    pub name: Seq<char>,
    pub entity: EntityType,
    pub behavior: Behavior,
    pub path: Seq<char>,
    pub range: Range,
}

pub open spec fn sym_v(s: SymbolEntry) -> SymV {
    SymV {
        name: s.name@,
        entity: s.entity,
        behavior: s.behavior,
        path: s.path@,
        range: s.range,
    }
}

/// The contents of a symbol list.
pub open spec fn syms_v(v: Seq<SymbolEntry>) -> Seq<SymV> {
    v.map_values(|s: SymbolEntry| sym_v(s))
}

/// The symbol a stored entry denotes.
pub open spec fn entry_sym() -> spec_fn(Entry) -> SymV {
    |en: Entry|
        SymV {
            name: en.key.name@,
            entity: en.key.entity,
            behavior: en.loc.behavior,
            path: en.loc.path@,
            range: en.loc.range,
        }
}

/// Selects entries whose folded name contains the folded query.
pub open spec fn name_matches(q: Seq<char>) -> spec_fn(Entry) -> bool {
    |en: Entry| occurs_from(lower_of(en.key.name@), lower_of(q), 0)
}

impl ProjectIndex {
    /// The outline of one file: exactly the stored occurrences of the
    /// path, one listed symbol per entry, sorted ascending by start
    /// line.
    pub fn get_document_symbols(&self, path: &str) -> (r: Vec<SymbolEntry>)
        ensures
            syms_v(r@).to_multiset() == sel(
                self.entries@,
                match_path(path@),
                entry_sym(),
            ).to_multiset(),
            forall|a: int, b: int|
                0 <= a < b < r@.len() ==> (#[trigger] r@[a]).range.start.line <= (
                #[trigger] r@[b]).range.start.line,
    {
        // Collect the path's occurrences, in storage order.
        let mut flat: Vec<SymbolEntry> = Vec::new();
        let mut i: usize = 0;
        proof {
            assert(self.entries@.take(0) =~= Seq::<Entry>::empty());
            lemma_sel_empty(match_path(path@), entry_sym());
            assert(syms_v(flat@) =~= Seq::<SymV>::empty());
        }
        while i < self.entries.len()
            invariant
                0 <= i <= self.entries@.len(),
                syms_v(flat@) == sel(self.entries@.take(i as int), match_path(path@), entry_sym()),
            decreases self.entries@.len() - i,
        {
            let ghost prevf = flat@;
            let en = &self.entries[i];
            let hit = str_eq(en.loc.path.as_str(), path);
            if hit {
                flat.push(
                    SymbolEntry {
                        name: en.key.name.clone(),
                        entity: en.key.entity,
                        behavior: en.loc.behavior,
                        path: en.loc.path.clone(),
                        range: en.loc.range,
                    },
                );
            }
            proof {
                assert(self.entries@.take(i + 1) =~= self.entries@.take(i as int).push(
                    self.entries@[i as int],
                ));
                lemma_sel_push(
                    self.entries@.take(i as int),
                    self.entries@[i as int],
                    match_path(path@),
                    entry_sym(),
                );
                if hit {
                    assert(syms_v(flat@) =~= syms_v(prevf).push(sym_v(flat@[flat@.len() - 1])));
                    assert(sym_v(flat@[flat@.len() - 1]) =~= entry_sym()(self.entries@[i as int]));
                } else {
                    assert(syms_v(flat@) =~= syms_v(prevf));
                }
            }
            i += 1;
        }
        proof {
            assert(self.entries@.take(self.entries@.len() as int) =~= self.entries@);
        }
        let ghost fv = syms_v(flat@);
        // Order the outline by start line, keeping equal lines stable.
        let mut r: Vec<SymbolEntry> = Vec::new();
        let mut j: usize = 0;
        proof {
            broadcast use vstd::seq_lib::group_to_multiset_ensures;

            assert(fv.take(0) =~= Seq::<SymV>::empty());
            assert(syms_v(r@) =~= Seq::<SymV>::empty());
            assert(syms_v(r@).to_multiset() =~= fv.take(0).to_multiset());
        }
        while j < flat.len()
            invariant
                0 <= j <= flat@.len(),
                fv == syms_v(flat@),
                syms_v(r@).to_multiset() == fv.take(j as int).to_multiset(),
                forall|a: int, b: int|
                    0 <= a < b < r@.len() ==> (#[trigger] r@[a]).range.start.line <= (
                    #[trigger] r@[b]).range.start.line,
            decreases flat@.len() - j,
        {
            let item = flat[j].clone();
            proof {
                assert(sym_v(item) == fv[j as int]);
            }
            let mut p: usize = 0;
            while p < r.len() && r[p].range.start.line <= item.range.start.line
                invariant
                    0 <= p <= r@.len(),
                    forall|a: int|
                        0 <= a < p ==> (#[trigger] r@[a]).range.start.line
                            <= item.range.start.line,
                decreases r@.len() - p,
            {
                p += 1;
            }
            let ghost prevr = r@;
            let ghost pp = p as int;
            r.insert(p, item);
            proof {
                broadcast use vstd::seq_lib::group_to_multiset_ensures;

                assert(r@ =~= prevr.insert(pp, r@[pp]));
                assert(syms_v(r@) =~= syms_v(prevr).insert(pp, sym_v(r@[pp])));
                crate::seq_util::lemma_insert_to_multiset(syms_v(prevr), pp, sym_v(r@[pp]));
                assert(fv.take(j + 1) =~= fv.take(j as int).push(fv[j as int]));
                assert(syms_v(r@).to_multiset() =~= fv.take(j + 1).to_multiset());
                assert forall|a: int, b: int|
                    0 <= a < b < r@.len() implies (#[trigger] r@[a]).range.start.line <= (
                #[trigger] r@[b]).range.start.line by {
                    if a < pp && b == pp {
                        assert(r@[a] == prevr[a]);
                    } else if a == pp && b > pp {
                        assert(r@[b] == prevr[b - 1]);
                        if pp < prevr.len() {
                            assert(!(prevr[pp].range.start.line <= r@[pp].range.start.line));
                        }
                    } else if a < pp && b > pp {
                        assert(r@[a] == prevr[a]);
                        assert(r@[b] == prevr[b - 1]);
                    } else if b < pp {
                        assert(r@[a] == prevr[a]);
                        assert(r@[b] == prevr[b]);
                    } else if a > pp {
                        assert(r@[a] == prevr[a - 1]);
                        assert(r@[b] == prevr[b - 1]);
                    }
                }
            }
            j += 1;
        }
        proof {
            assert(fv.take(fv.len() as int) =~= fv);
        }
        r
    }

    /// Case-insensitive substring search over every indexed name:
    /// exactly the matching stored entries in storage order, one listed
    /// symbol per entry, truncated at 100.
    pub fn search_workspace_symbols(&self, query: &str) -> (r: Vec<SymbolEntry>)
        ensures
            ({
                let all = sel(self.entries@, name_matches(query@), entry_sym());
                syms_v(r@) == if all.len() <= 100 {
                    all
                } else {
                    all.take(100)
                }
            }),
    {
        let ql = lowercase(query);
        let mut r: Vec<SymbolEntry> = Vec::new();
        let mut i: usize = 0;
        proof {
            assert(self.entries@.take(0) =~= Seq::<Entry>::empty());
            lemma_sel_empty(name_matches(query@), entry_sym());
            assert(syms_v(r@) =~= Seq::<SymV>::empty());
        }
        while i < self.entries.len() && r.len() < 100
            invariant
                0 <= i <= self.entries@.len(),
                r@.len() <= 100,
                ql@ == lower_of(query@),
                syms_v(r@) == sel(self.entries@.take(i as int), name_matches(query@), entry_sym()),
            decreases self.entries@.len() - i,
        {
            let ghost prevr = r@;
            let en = &self.entries[i];
            let nl = lowercase(en.key.name.as_str());
            let hit = contains_sub(nl.as_str(), ql.as_str());
            if hit {
                r.push(
                    SymbolEntry {
                        name: en.key.name.clone(),
                        entity: en.key.entity,
                        behavior: en.loc.behavior,
                        path: en.loc.path.clone(),
                        range: en.loc.range,
                    },
                );
            }
            proof {
                assert(self.entries@.take(i + 1) =~= self.entries@.take(i as int).push(
                    self.entries@[i as int],
                ));
                lemma_sel_push(
                    self.entries@.take(i as int),
                    self.entries@[i as int],
                    name_matches(query@),
                    entry_sym(),
                );
                if hit {
                    assert(syms_v(r@) =~= syms_v(prevr).push(sym_v(r@[r@.len() - 1])));
                    assert(sym_v(r@[r@.len() - 1]) =~= entry_sym()(self.entries@[i as int]));
                } else {
                    assert(syms_v(r@) =~= syms_v(prevr));
                }
            }
            i += 1;
        }
        proof {
            let all = sel(self.entries@, name_matches(query@), entry_sym());
            if i == self.entries@.len() {
                assert(self.entries@.take(i as int) =~= self.entries@);
                assert(all.len() <= 100);
            } else {
                // The cap stopped the scan: the collected prefix is the
                // first hundred matches.
                lemma_sel_prefix(self.entries@, i as int, name_matches(query@), entry_sym());
                assert(syms_v(r@) =~= all.take(100));
                assert(all.len() >= 100);
                if all.len() == 100 {
                    assert(all.take(100) =~= all);
                }
            }
        }
        r
    }
}

} // verus!
