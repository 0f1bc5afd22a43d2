//! The cross-reference resolver: a fixed, directional adjacency over
//! behaviors drives bidirectional navigation between the two sides of
//! the boundary.

use crate::indexer::{loc_v, locs_v, LocV, LocationInfo};
use crate::syntax::Behavior;
use crate::text::str_eq;
use vstd::prelude::*;

verus! {

/// The behavior a navigation request jumps to: definitions and calls
/// point at each other, emits and listens point at each other.
pub open spec fn adjacent(b: Behavior) -> Behavior {
    match b {
        Behavior::Definition => Behavior::Call,
        Behavior::Call => Behavior::Definition,
        Behavior::Emit => Behavior::Listen,
        Behavior::Listen => Behavior::Emit,
    }
}

/// Whether `l` is a target when navigating from `origin`: it uses the
/// symbol as the adjacent behavior and is not the origin itself.
pub open spec fn adjacency_target(origin: LocV) -> spec_fn(LocV) -> bool {
    |l: LocV|
        l.behavior == adjacent(origin.behavior) && !(l.range == origin.range && l.path
            == origin.path)
}

/// The adjacency table is its own mirror.
pub proof fn lemma_adjacent_involutive(b: Behavior)
    ensures
        adjacent(adjacent(b)) == b,
{
}

/// From all locations of one key, the targets of a navigation from
/// `origin`: every location whose behavior is the adjacent one, except
/// the origin itself, in storage order.
pub fn resolve_targets(all: &Vec<LocationInfo>, origin: &LocationInfo) -> (r: Vec<LocationInfo>)
    ensures
        locs_v(r@) == locs_v(all@).filter(adjacency_target(loc_v(*origin))),
{
    let want = match origin.behavior {
        Behavior::Definition => Behavior::Call,
        Behavior::Call => Behavior::Definition,
        Behavior::Emit => Behavior::Listen,
        Behavior::Listen => Behavior::Emit,
    };
    let mut r: Vec<LocationInfo> = Vec::new();
    let mut i: usize = 0;
    proof {
        assert(all@.take(0) =~= Seq::<LocationInfo>::empty());
        assert(locs_v(r@) =~= Seq::<LocV>::empty());
        assert(locs_v(all@.take(0)) =~= Seq::<LocV>::empty());
    }
    while i < all.len()
        invariant
            0 <= i <= all@.len(),
            want == adjacent(loc_v(*origin).behavior),
            locs_v(r@) == locs_v(all@.take(i as int)).filter(adjacency_target(loc_v(*origin))),
        decreases all@.len() - i,
    {
        let ghost prevr = r@;
        let l = &all[i];
        let same_origin = l.range.start.line == origin.range.start.line
            && l.range.start.character == origin.range.start.character && l.range.end.line
            == origin.range.end.line && l.range.end.character == origin.range.end.character
            && str_eq(l.path.as_str(), origin.path.as_str());
        let hit = l.behavior == want && !same_origin;
        if hit {
            r.push(l.clone());
        }
        proof {
            let pred = adjacency_target(loc_v(*origin));
            assert(all@.take(i + 1) =~= all@.take(i as int).push(all@[i as int]));
            assert(locs_v(all@.take(i + 1)) =~= locs_v(all@.take(i as int)).push(
                loc_v(all@[i as int]),
            ));
            let whole = locs_v(all@.take(i + 1));
            assert(whole.take(whole.len() as int) =~= whole);
            assert(whole[whole.len() - 1] == loc_v(all@[i as int]));
            crate::seq_util::lemma_filter_take_step(whole, whole.len() - 1, pred);
            assert(whole.take(whole.len() - 1) =~= locs_v(all@.take(i as int)));
            assert(hit == pred(loc_v(all@[i as int])));
            if hit {
                assert(locs_v(r@) =~= locs_v(prevr).push(loc_v(r@[r@.len() - 1])));
            } else {
                assert(locs_v(r@) =~= locs_v(prevr));
            }
        }
        i += 1;
    }
    proof {
        assert(all@.take(all@.len() as int) =~= all@);
    }
    r
}

/// Adjacency on a definition/call pair: when a key's locations are a
/// backend definition and one frontend call in another file, resolving
/// from the definition yields exactly the call, and resolving from the
/// call yields exactly the definition.
pub proof fn lemma_adjacency_pair(d: LocV, c: LocV)
    requires
        d.behavior == Behavior::Definition,
        c.behavior == Behavior::Call,
        d.path != c.path,
    ensures
        seq![d, c].filter(adjacency_target(d)) == seq![c],
        seq![d, c].filter(adjacency_target(c)) == seq![d],
{
    reveal_with_fuel(Seq::filter, 3);
    assert(seq![d, c].drop_last() =~= seq![d]);
    assert(seq![d].drop_last() =~= Seq::<LocV>::empty());
    assert(seq![d, c].filter(adjacency_target(d)) =~= seq![c]);
    assert(seq![d, c].filter(adjacency_target(c)) =~= seq![d]);
}

/// The same symmetry for an emit/listen pair: resolving from the emit
/// yields exactly the listen, and from the listen exactly the emit.
pub proof fn lemma_adjacency_pair_events(e: LocV, l: LocV)
    requires
        e.behavior == Behavior::Emit,
        l.behavior == Behavior::Listen,
        e.path != l.path,
    ensures
        seq![e, l].filter(adjacency_target(e)) == seq![l],
        seq![e, l].filter(adjacency_target(l)) == seq![e],
{
    reveal_with_fuel(Seq::filter, 3);
    assert(seq![e, l].drop_last() =~= seq![e]);
    assert(seq![e].drop_last() =~= Seq::<LocV>::empty());
    assert(seq![e, l].filter(adjacency_target(e)) =~= seq![l]);
    assert(seq![e, l].filter(adjacency_target(l)) =~= seq![e]);
}

} // verus!
