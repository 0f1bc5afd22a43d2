//! The store's algebraic laws: re-indexing a file replaces its earlier
//! contribution, doing it twice with the same findings changes nothing
//! more, and removing a file makes every symbol that lived only there
//! unresolvable.

use crate::indexer::{
    file_locs, loc_path_ne, reindexed, Finding, LocV, ProjectIndex,
};
use crate::seq_util::{lemma_filter_all, lemma_filter_none};
use crate::syntax::EntityType;
use vstd::prelude::*;
use vstd::seq_lib::group_filter_ensures;

verus! {

/// Every location a file contributes is recorded under that file's path.
pub proof fn lemma_file_locs_path(
    path: Seq<char>,
    findings: Seq<Finding>,
    e: EntityType,
    n: Seq<char>,
)
    ensures
        forall|i: int|
            0 <= i < file_locs(path, findings, e, n).len() ==> (#[trigger] file_locs(
                path,
                findings,
                e,
                n,
            )[i]).path == path,
{
    broadcast use group_filter_ensures;

}

/// Replacement: if the store went from `pre` to `mid` by indexing
/// `path` with `f1`, and from `mid` to `post` by indexing `path` with
/// `f2`, then `post` is exactly what indexing `path` with `f2` in `pre`
/// yields. Every symbol only `f1` contributed is gone, and symbols
/// contributed by both remain resolvable through `f2`'s records.
pub proof fn lemma_replacement(
    pre: ProjectIndex,
    mid: ProjectIndex,
    post: ProjectIndex,
    path: Seq<char>,
    f1: Seq<Finding>,
    f2: Seq<Finding>,
)
    requires
        reindexed(pre, mid, path, f1),
        reindexed(mid, post, path, f2),
    ensures
        reindexed(pre, post, path, f2),
{
    broadcast use group_filter_ensures;

    assert forall|e: EntityType, n: Seq<char>| #![all_triggers]
        post.locs_of(e, n) == pre.locs_of(e, n).filter(loc_path_ne(path)) + file_locs(
            path,
            f2,
            e,
            n,
        ) by {
        let ne = loc_path_ne(path);
        let a = pre.locs_of(e, n);
        let c1 = file_locs(path, f1, e, n);
        let c2 = file_locs(path, f2, e, n);
        assert(mid.locs_of(e, n) == a.filter(ne) + c1);
        assert(post.locs_of(e, n) == (a.filter(ne) + c1).filter(ne) + c2);
        Seq::filter_distributes_over_add(a.filter(ne), c1, ne);
        assert(forall|i: int| 0 <= i < a.filter(ne).len() ==> ne(#[trigger] a.filter(ne)[i]));
        lemma_filter_all(a.filter(ne), ne);
        lemma_file_locs_path(path, f1, e, n);
        assert(forall|i: int| 0 <= i < c1.len() ==> !ne(#[trigger] c1[i]));
        lemma_filter_none(c1, ne);
        assert((a.filter(ne) + c1).filter(ne) =~= a.filter(ne));
    }
}

/// Idempotence: indexing the same findings for the same path twice in a
/// row leaves every key resolving to exactly what the first indexing
/// produced, so all query results agree.
pub proof fn lemma_add_file_idempotent(
    pre: ProjectIndex,
    mid: ProjectIndex,
    post: ProjectIndex,
    path: Seq<char>,
    findings: Seq<Finding>,
)
    requires
        reindexed(pre, mid, path, findings),
        reindexed(mid, post, path, findings),
    ensures
        forall|e: EntityType, n: Seq<char>| #![all_triggers]
            post.locs_of(e, n) == mid.locs_of(e, n),
{
    lemma_replacement(pre, mid, post, path, findings, findings);
}

/// Removal: when every location of a key lived in the removed file, the
/// key resolves to nothing afterwards, so it is absent from every
/// enumeration derived from the store.
pub proof fn lemma_removal(
    pre: ProjectIndex,
    post: ProjectIndex,
    path: Seq<char>,
    e: EntityType,
    n: Seq<char>,
)
    requires
        post.locs_of(e, n) == pre.locs_of(e, n).filter(loc_path_ne(path)),
        forall|i: int|
            0 <= i < pre.locs_of(e, n).len() ==> (#[trigger] pre.locs_of(e, n)[i]).path == path,
    ensures
        post.locs_of(e, n) == Seq::<LocV>::empty(),
{
    let ne = loc_path_ne(path);
    assert(forall|i: int| 0 <= i < pre.locs_of(e, n).len() ==> !ne(
        #[trigger] pre.locs_of(e, n)[i],
    ));
    lemma_filter_none(pre.locs_of(e, n), ne);
}

} // verus!
