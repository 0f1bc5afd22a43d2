//! Position-addressable lookup: a per-file array of (range, key) pairs
//! sorted by start position, built on demand and memoized, resolved by
//! binary search plus exact half-open containment.

use crate::indexer::cache::{
    entry_pos_match, key_v_eq, pos_complete, pos_count, pos_index_ok, pos_sorted, pos_sound,
    range_start_le,
};
use crate::indexer::{match_path, Entry, IndexKey, LocationInfo, ProjectIndex};
use crate::text::str_eq;
use crate::{Position, Range};
use vstd::prelude::*;

verus! {

/// Half-open containment: the position is at or after the start and
/// strictly before the end. On the start line the column must reach the
/// start column, on the end line it must fall short of the end column,
/// and any line strictly between is always inside.
pub open spec fn pos_in_range_spec(pos: Position, range: Range) -> bool {
    &&& range.start.line <= pos.line <= range.end.line
    &&& (pos.line == range.start.line ==> pos.character >= range.start.character)
    &&& (pos.line == range.end.line ==> pos.character < range.end.character)
}

/// Whether the start of `range` lies at or before `pos`.
pub open spec fn starts_at_or_before(range: Range, pos: Position) -> bool {
    range.start.line < pos.line || (range.start.line == pos.line && range.start.character
        <= pos.character)
}

/// Checks half-open containment of a position in a range.
pub fn is_position_in_range(pos: Position, range: Range) -> (r: bool)
    ensures
        r == pos_in_range_spec(pos, range),
{
    if pos.line < range.start.line || pos.line > range.end.line {
        return false;
    }
    if range.start.line == range.end.line {
        return pos.character >= range.start.character && pos.character < range.end.character;
    }
    if pos.line == range.start.line {
        return pos.character >= range.start.character;
    }
    if pos.line == range.end.line {
        return pos.character < range.end.character;
    }
    true
}

/// Builds the sorted position index of one file from the stored
/// entries: one element per entry of the path, ordered by start
/// position.
pub fn build_position_index(entries: &Vec<Entry>, path: &str) -> (r: Vec<(Range, IndexKey)>)
    ensures
        pos_index_ok(r@, entries@, path@),
{
    let mut r: Vec<(Range, IndexKey)> = Vec::new();
    let mut i: usize = 0;
    proof {
        assert(entries@.take(0) =~= Seq::<Entry>::empty());
        crate::seq_util::lemma_sel_empty(match_path(path@), crate::indexer::entry_key());
    }
    while i < entries.len()
        invariant
            0 <= i <= entries@.len(),
            pos_sorted(r@),
            pos_sound(r@, entries@, path@),
            pos_complete(r@, entries@.take(i as int), path@),
            r@.len() == crate::seq_util::sel(
                entries@.take(i as int),
                match_path(path@),
                crate::indexer::entry_key(),
            ).len(),
        decreases entries@.len() - i,
    {
        proof {
            assert(entries@.take(i + 1) =~= entries@.take(i as int).push(entries@[i as int]));
            crate::seq_util::lemma_sel_push(
                entries@.take(i as int),
                entries@[i as int],
                match_path(path@),
                crate::indexer::entry_key(),
            );
        }
        let en = &entries[i];
        if str_eq(en.loc.path.as_str(), path) {
            let item = (en.loc.range, en.key.clone());
            // Find the first slot whose start lies after the new item.
            let mut p: usize = 0;
            while p < r.len() && range_le(r[p].0, item.0)
                invariant
                    0 <= p <= r@.len(),
                    forall|a: int| 0 <= a < p ==> range_start_le((#[trigger] r@[a]).0, item.0),
                decreases r@.len() - p,
            {
                p += 1;
            }
            let ghost prevr = r@;
            let ghost pp = p as int;
            r.insert(p, item);
            proof {
                assert(r@ =~= prevr.insert(pp, item));
                assert(entry_pos_match(entries@[i as int], item, path@));
                assert(pos_sorted(r@)) by {
                assert forall|a: int, b: int|
                    0 <= a < b < r@.len() implies range_start_le(
                    (#[trigger] r@[a]).0,
                    (#[trigger] r@[b]).0,
                ) by {
                    if a < pp && b == pp {
                        assert(r@[a] == prevr[a]);
                    } else if a == pp && b > pp {
                        assert(r@[b] == prevr[b - 1]);
                        assert(b - 1 >= pp);
                        if pp < prevr.len() {
                            assert(!range_start_le(prevr[pp].0, item.0));
                        }
                        assert(range_start_le(item.0, r@[b].0));
                    } else if a < pp && b > pp {
                        assert(r@[a] == prevr[a]);
                        assert(r@[b] == prevr[b - 1]);
                    } else if b < pp {
                        assert(r@[a] == prevr[a]);
                        assert(r@[b] == prevr[b]);
                    } else if a > pp {
                        assert(r@[a] == prevr[a - 1]);
                        assert(r@[b] == prevr[b - 1]);
                    }
                }
                }
                assert(pos_sound(r@, entries@, path@)) by {
                assert forall|a: int| 0 <= a < r@.len() implies exists|j: int|
                    0 <= j < entries@.len() && entry_pos_match(
                        #[trigger] entries@[j],
                        #[trigger] r@[a],
                        path@,
                    ) by {
                    if a == pp {
                        assert(entry_pos_match(entries@[i as int], r@[a], path@));
                    } else {
                        let a0 = if a < pp {
                            a
                        } else {
                            a - 1
                        };
                        assert(r@[a] == prevr[a0]);
                        let j = choose|j: int|
                            0 <= j < entries@.len() && entry_pos_match(
                                #[trigger] entries@[j],
                                prevr[a0],
                                path@,
                            );
                        assert(entry_pos_match(entries@[j], r@[a], path@));
                    }
                }
                }
                assert(pos_complete(r@, entries@.take(i + 1), path@)) by {
                assert forall|j: int|
                    0 <= j < i + 1 && (#[trigger] entries@.take(i + 1)[j]).loc.path@ == path@
                    implies exists|a: int|
                    0 <= a < r@.len() && entry_pos_match(
                        entries@.take(i + 1)[j],
                        #[trigger] r@[a],
                        path@,
                    ) by {
                    if j == i {
                        assert(entry_pos_match(entries@[j], r@[pp], path@));
                    } else {
                        assert(entries@.take(i as int)[j] == entries@.take(i + 1)[j]);
                        let a0 = choose|a0: int|
                            0 <= a0 < prevr.len() && entry_pos_match(
                                entries@.take(i as int)[j],
                                #[trigger] prevr[a0],
                                path@,
                            );
                        let a1 = if a0 < pp {
                            a0
                        } else {
                            a0 + 1
                        };
                        assert(r@[a1] == prevr[a0]);
                        assert(entry_pos_match(entries@.take(i + 1)[j], r@[a1], path@));
                    }
                }
                }
            }
        } else {
            proof {
                assert(pos_complete(r@, entries@.take(i + 1), path@)) by {
                assert forall|j: int|
                    0 <= j < i + 1 && (#[trigger] entries@.take(i + 1)[j]).loc.path@ == path@
                    implies exists|a: int|
                    0 <= a < r@.len() && entry_pos_match(
                        entries@.take(i + 1)[j],
                        #[trigger] r@[a],
                        path@,
                    ) by {
                    assert(j < i);
                    assert(entries@.take(i as int)[j] == entries@.take(i + 1)[j]);
                    let a0 = choose|a0: int|
                        0 <= a0 < r@.len() && entry_pos_match(
                            entries@.take(i as int)[j],
                            #[trigger] r@[a0],
                            path@,
                        );
                    assert(entry_pos_match(entries@.take(i + 1)[j], r@[a0], path@));
                }
                }
            }
        }
        i += 1;
    }
    proof {
        assert(entries@.take(entries@.len() as int) =~= entries@);
        assert(pos_count(r@, entries@, path@));
    }
    r
}

/// Start-position order, executable form.
fn range_le(a: Range, b: Range) -> (r: bool)
    ensures
        r == range_start_le(a, b),
{
    a.start.line < b.start.line || (a.start.line == b.start.line && a.start.character
        <= b.start.character)
}

/// Whether the start of `range` lies at or before `pos`, executable form.
fn starts_le(range: Range, pos: Position) -> (r: bool)
    ensures
        r == starts_at_or_before(range, pos),
{
    range.start.line < pos.line || (range.start.line == pos.line && range.start.character
        <= pos.character)
}

/// A contained position never precedes the range's start.
pub proof fn lemma_contained_starts_before(pos: Position, range: Range)
    requires
        pos_in_range_spec(pos, range),
    ensures
        starts_at_or_before(range, pos),
{
}

/// Resolves a position against a sorted position index: binary search
/// narrows to the candidates that start at or before the position, and
/// exact containment decides among them.
pub fn binary_search_position(
    index: &Vec<(Range, IndexKey)>,
    pos: Position,
) -> (r: Option<usize>)
    requires
        forall|a: int, b: int|
            0 <= a < b < index@.len() ==> range_start_le(
                (#[trigger] index@[a]).0,
                (#[trigger] index@[b]).0,
            ),
    ensures
        match r {
            Some(a) => a < index@.len() && pos_in_range_spec(pos, index@[a as int].0),
            None => forall|a: int|
                0 <= a < index@.len() ==> !pos_in_range_spec(pos, (#[trigger] index@[a]).0),
        },
{
    let n = index.len();
    let mut lo: usize = 0;
    let mut hi: usize = n;
    while lo < hi
        invariant
            0 <= lo <= hi <= n,
            n == index@.len(),
            forall|a: int| 0 <= a < lo ==> starts_at_or_before((#[trigger] index@[a]).0, pos),
            forall|a: int| hi <= a < n ==> !starts_at_or_before((#[trigger] index@[a]).0, pos),
            forall|a: int, b: int|
                0 <= a < b < index@.len() ==> range_start_le(
                    (#[trigger] index@[a]).0,
                    (#[trigger] index@[b]).0,
                ),
        decreases hi - lo,
    {
        let mid = lo + (hi - lo) / 2;
        if starts_le(index[mid].0, pos) {
            proof {
                assert forall|a: int| 0 <= a < mid + 1 implies starts_at_or_before(
                    (#[trigger] index@[a]).0,
                    pos,
                ) by {
                    if a < mid {
                        assert(range_start_le(index@[a].0, index@[mid as int].0));
                    }
                }
            }
            lo = mid + 1;
        } else {
            proof {
                assert forall|a: int| mid <= a < n implies !starts_at_or_before(
                    (#[trigger] index@[a]).0,
                    pos,
                ) by {
                    if a > mid {
                        assert(range_start_le(index@[mid as int].0, index@[a].0));
                    }
                }
            }
            hi = mid;
        }
    }
    // Candidates are exactly the slots before `lo`; scan them for
    // containment.
    let mut j: usize = lo;
    while j > 0
        invariant
            0 <= j <= lo <= n,
            n == index@.len(),
            forall|a: int| j <= a < lo ==> !pos_in_range_spec(pos, (#[trigger] index@[a]).0),
            forall|a: int| lo <= a < n ==> !starts_at_or_before((#[trigger] index@[a]).0, pos),
        decreases j,
    {
        j -= 1;
        if is_position_in_range(pos, index[j].0) {
            return Some(j);
        }
    }
    proof {
        assert forall|a: int| 0 <= a < index@.len() implies !pos_in_range_spec(
            pos,
            (#[trigger] index@[a]).0,
        ) by {
            if a >= lo {
                lemma_not_started_not_contained(pos, index@[a].0);
            }
        }
    }
    None
}

proof fn lemma_not_started_not_contained(pos: Position, range: Range)
    requires
        !starts_at_or_before(range, pos),
    ensures
        !pos_in_range_spec(pos, range),
{
}

impl ProjectIndex {
    /// Resolves a position in a file to the key and location recorded
    /// there, if any. The per-file sorted index is built on the first
    /// query and memoized until the file's findings change.
    pub fn get_key_at_position(&mut self, path: &str, pos: Position) -> (r: Option<
        (IndexKey, LocationInfo),
    >)
        requires
            old(self).wf(),
        ensures
            final(self).wf(),
            final(self).entries@ == old(self).entries@,
            final(self).files@ == old(self).files@,
            final(self).parse_errors@ == old(self).parse_errors@,
            final(self).reference_limit == old(self).reference_limit,
            match r {
                Some(kl) => exists|j: int|
                    0 <= j < old(self).entries@.len() && {
                        let en = #[trigger] old(self).entries@[j];
                        &&& en.loc.path@ == path@
                        &&& key_v_eq(en.key, kl.0)
                        &&& crate::indexer::loc_v(en.loc) == crate::indexer::loc_v(kl.1)
                        &&& pos_in_range_spec(pos, en.loc.range)
                    },
                None => forall|j: int|
                    0 <= j < old(self).entries@.len() && (#[trigger] old(
                        self,
                    ).entries@[j]).loc.path@ == path@ ==> !pos_in_range_spec(
                        pos,
                        old(self).entries@[j].loc.range,
                    ),
            },
    {
        // Use the memoized index for this path, or build and memoize it.
        let mut ci: usize = 0;
        let mut found: Option<usize> = None;
        while ci < self.cache.position_index.len() && found.is_none()
            invariant
                0 <= ci <= self.cache.position_index@.len(),
                *self == *old(self),
                match found {
                    Some(f) => f < self.cache.position_index@.len()
                        && self.cache.position_index@[f as int].0@ == path@,
                    None => true,
                },
            decreases self.cache.position_index@.len() - ci + (if found is None {
                1int
            } else {
                0int
            }),
        {
            if str_eq(self.cache.position_index[ci].0.as_str(), path) {
                found = Some(ci);
            } else {
                ci += 1;
            }
        }
        let slot: usize = match found {
            Some(f) => f,
            None => {
                let built = build_position_index(&self.entries, path);
                let owned_path = path_to_string(path);
                self.cache.position_index.push((owned_path, built));
                proof {
                    let c = self.cache;
                    assert forall|i2: int| 0 <= i2 < c.position_index@.len() implies pos_index_ok(
                        (#[trigger] c.position_index@[i2]).1@,
                        self.entries@,
                        c.position_index@[i2].0@,
                    ) by {
                        if i2 < c.position_index@.len() - 1 {
                            assert(c.position_index@[i2] == old(self).cache.position_index@[i2]);
                        }
                    }
                    assert(self.wf());
                }
                self.cache.position_index.len() - 1
            },
        };
        let hit = {
            let idx = &self.cache.position_index[slot].1;
            binary_search_position(idx, pos)
        };
        match hit {
            Some(a) => {
                // Recover the stored entry behind the matched slot.
                let range = self.cache.position_index[slot].1[a].0;
                let key = self.cache.position_index[slot].1[a].1.clone();
                let ghost pv = self.cache.position_index@[slot as int];
                proof {
                    assert(pos_index_ok(pv.1@, self.entries@, pv.0@));
                    assert(pv.0@ == path@);
                    assert(exists|b: int|
                        0 <= b < self.entries@.len() && entry_pos_match(
                            #[trigger] self.entries@[b],
                            pv.1@[a as int],
                            path@,
                        )) by {
                        let b = choose|b: int|
                            0 <= b < self.entries@.len() && entry_pos_match(
                                #[trigger] self.entries@[b],
                                pv.1@[a as int],
                                pv.0@,
                            );
                        assert(entry_pos_match(self.entries@[b], pv.1@[a as int], path@));
                    }
                }
                let mut j: usize = 0;
                while j < self.entries.len()
                    invariant
                        0 <= j <= self.entries@.len(),
                        forall|b: int|
                            0 <= b < j ==> !entry_pos_match(
                                (#[trigger] self.entries@[b]),
                                (range, key),
                                path@,
                            ),
                        key_v_eq(key, pv.1@[a as int].1),
                        range == pv.1@[a as int].0,
                        exists|b: int|
                            0 <= b < self.entries@.len() && entry_pos_match(
                                #[trigger] self.entries@[b],
                                pv.1@[a as int],
                                path@,
                            ),
                        pos_in_range_spec(pos, range),
                        self.entries@ == old(self).entries@,
                        self.files@ == old(self).files@,
                        self.parse_errors@ == old(self).parse_errors@,
                        self.reference_limit == old(self).reference_limit,
                        self.wf(),
                        a < pv.1@.len(),
                        pv == self.cache.position_index@[slot as int],
                        slot < self.cache.position_index@.len(),
                    decreases self.entries@.len() - j,
                {
                    let en = &self.entries[j];
                    if str_eq(en.loc.path.as_str(), path) && en.key.entity == key.entity
                        && str_eq(en.key.name.as_str(), key.name.as_str()) && range_eq(
                        en.loc.range,
                        range,
                    ) {
                        let loc = en.loc.clone();
                        proof {
                            let en0 = self.entries@[j as int];
                            assert(en0.loc.path@ == path@);
                            assert(key_v_eq(en0.key, key));
                            assert(pos_in_range_spec(pos, en0.loc.range));
                        }
                        return Some((key, loc));
                    }
                    proof {
                        assert(!entry_pos_match(self.entries@[j as int], (range, key), path@));
                    }
                    j += 1;
                }
                proof {
                    let b = choose|b: int|
                        0 <= b < self.entries@.len() && entry_pos_match(
                            #[trigger] self.entries@[b],
                            pv.1@[a as int],
                            path@,
                        );
                    assert(entry_pos_match(self.entries@[b], (range, key), path@));
                    assert(false);
                }
                None
            },
            None => {
                proof {
                    let pv = self.cache.position_index@[slot as int];
                    assert(pos_index_ok(pv.1@, self.entries@, pv.0@));
                    assert forall|j: int|
                        0 <= j < self.entries@.len() && (#[trigger] self.entries@[j]).loc.path@
                            == path@ implies !pos_in_range_spec(
                        pos,
                        self.entries@[j].loc.range,
                    ) by {
                        let a = choose|a: int|
                            0 <= a < pv.1@.len() && entry_pos_match(
                                self.entries@[j],
                                #[trigger] pv.1@[a],
                                path@,
                            );
                        assert(!pos_in_range_spec(pos, pv.1@[a].0));
                    }
                }
                None
            },
        }
    }
}

/// Exact equality of ranges.
fn range_eq(a: Range, b: Range) -> (r: bool)
    ensures
        r == (a == b),
{
    a.start.line == b.start.line && a.start.character == b.start.character && a.end.line
        == b.end.line && a.end.character == b.end.character
}

/// Owns a borrowed path.
fn path_to_string(path: &str) -> (r: String)
    ensures
        r@ == path@,
{
    path.to_owned()
}

} // verus!
