//! Reference groupings for inline annotations: for each occurrence of a
//! symbol in a file, its locations in other files are partitioned into
//! backend and frontend groups, and each group either yields one
//! navigable entry per distinct target file or collapses into a single
//! summary once the distinct target files pass the configured
//! threshold. The result is specified exactly by `lens_file_spec`.

use crate::file_processor::ext_of;
use crate::indexer::{
    loc_path_is, loc_v, locs_v, KeyV, LocV, LocationInfo, ProjectIndex,
};
use crate::text::str_eq;
use crate::Range;
use vstd::prelude::*;
use vstd::string::StrSliceExecFns;

verus! {

/// What one lens entry offers: navigation to one target file, or a
/// summary of many references.
#[derive(Debug)]
pub enum LensLabel {
    GoToFile(String),
    References(usize),
}

/// One reference grouping: where it is anchored, what it offers, and
/// the locations it points at.
#[derive(Debug)]
pub struct LensEntry {
    pub range: Range,
    pub label: LensLabel,
    pub targets: Vec<LocationInfo>,
}

/// The mathematical content of a lens entry.
#[verifier::ext_equal]
pub ghost struct LensV {
    pub range: Range,
    pub goto: Option<Seq<char>>,
    pub count: Option<int>,
    pub targets: Seq<LocV>,
}

pub open spec fn lens_v(e: LensEntry) -> LensV {
    LensV {
        range: e.range,
        goto: match e.label {
            LensLabel::GoToFile(f) => Some(f@),
            LensLabel::References(_) => None,
        },
        count: match e.label {
            LensLabel::GoToFile(_) => None,
            LensLabel::References(c) => Some(c as int),
        },
        targets: locs_v(e.targets@),
    }
}

/// The contents of a lens list.
pub open spec fn lens_vs(v: Seq<LensEntry>) -> Seq<LensV> {
    v.map_values(|e: LensEntry| lens_v(e))
}

/// The name of the file a path addresses: the text after the last
/// separator.
pub open spec fn file_name_of(p: Seq<char>) -> Seq<char> {
    p.skip(crate::file_processor::last_index_of(p, '/') + 1)
}

/// The distinct target paths of a location list: the first occurrence
/// fixes a path's position.
pub open spec fn distinct_paths(ts: Seq<LocV>) -> Seq<Seq<char>>
    decreases ts.len(),
{
    if ts.len() == 0 {
        Seq::empty()
    } else {
        let rest = distinct_paths(ts.drop_last());
        if rest.contains(ts.last().path) {
            rest
        } else {
            rest.push(ts.last().path)
        }
    }
}

/// What grouping a target set yields at one anchor: nothing when there
/// are no targets; one navigable entry per distinct target file, each
/// carrying exactly that file's targets, while the distinct files stay
/// at or below the threshold; one summary entry carrying every target
/// once they exceed it.
pub open spec fn group_spec(targets: Seq<LocV>, anchor: Range, limit: int) -> Seq<LensV> {
    if targets.len() == 0 {
        Seq::empty()
    } else {
        let dp = distinct_paths(targets);
        if dp.len() > limit {
            seq![
                LensV {
                    range: anchor,
                    goto: None,
                    count: Some(targets.len() as int),
                    targets: targets,
                },
            ]
        } else {
            Seq::new(
                dp.len(),
                |x: int|
                    LensV {
                        range: anchor,
                        goto: Some(file_name_of(dp[x])),
                        count: None,
                        targets: targets.filter(loc_path_is(dp[x])),
                    },
            )
        }
    }
}

/// Whether a location lives in a backend source file.
pub open spec fn is_backend_loc(l: LocV) -> bool {
    ext_of(l.path) == "rs"@
}

/// Selects a key's backend targets outside the queried file.
pub open spec fn backend_target(p: Seq<char>) -> spec_fn(LocV) -> bool {
    |l: LocV| l.path != p && is_backend_loc(l)
}

/// Selects a key's frontend targets outside the queried file.
pub open spec fn frontend_target(p: Seq<char>) -> spec_fn(LocV) -> bool {
    |l: LocV| l.path != p && !is_backend_loc(l)
}

/// The groupings one occurrence contributes: a backend file points at
/// its frontend references; a frontend file points at the backend
/// group first and at other frontend files second.
pub open spec fn anchor_groups(
    from_backend: bool,
    rust_t: Seq<LocV>,
    fe_t: Seq<LocV>,
    anchor: Range,
    limit: int,
) -> Seq<LensV> {
    if from_backend {
        group_spec(fe_t, anchor, limit)
    } else {
        (if rust_t.len() > 0 {
            group_spec(rust_t, anchor, limit)
        } else {
            Seq::empty()
        }) + (if fe_t.len() > 0 {
            group_spec(fe_t, anchor, limit)
        } else {
            Seq::empty()
        })
    }
}

/// The groupings of a key's occurrences in the file, in occurrence
/// order.
pub open spec fn anchors_lens(
    anchors: Seq<LocV>,
    from_backend: bool,
    rust_t: Seq<LocV>,
    fe_t: Seq<LocV>,
    limit: int,
) -> Seq<LensV>
    decreases anchors.len(),
{
    if anchors.len() == 0 {
        Seq::empty()
    } else {
        anchor_groups(from_backend, rust_t, fe_t, anchors[0].range, limit) + anchors_lens(
            anchors.drop_first(),
            from_backend,
            rust_t,
            fe_t,
            limit,
        )
    }
}

/// The groupings one key of the file contributes: nothing when the key
/// has no location outside the file.
pub open spec fn key_lens(px: ProjectIndex, path: Seq<char>, k: KeyV, limit: int) -> Seq<LensV> {
    let all = px.locs_of(k.entity, k.name);
    let cur = all.filter(loc_path_is(path));
    let rust_t = all.filter(backend_target(path));
    let fe_t = all.filter(frontend_target(path));
    if rust_t.len() + fe_t.len() == 0 {
        Seq::empty()
    } else {
        anchors_lens(cur, ext_of(path) == "rs"@, rust_t, fe_t, limit)
    }
}

/// The groupings over a list of keys, in order.
pub open spec fn lens_over_keys(
    px: ProjectIndex,
    path: Seq<char>,
    ks: Seq<KeyV>,
    limit: int,
) -> Seq<LensV>
    decreases ks.len(),
{
    if ks.len() == 0 {
        Seq::empty()
    } else {
        key_lens(px, path, ks[0], limit) + lens_over_keys(px, path, ks.drop_first(), limit)
    }
}

/// All groupings of one file: each distinct key of the file
/// contributes in first-occurrence order, under the configured
/// threshold. An unindexed path contributes nothing.
pub open spec fn lens_file_spec(px: ProjectIndex, path: Seq<char>) -> Seq<LensV> {
    lens_over_keys(
        px,
        path,
        crate::indexer::dedup_first(px.file_keys(path)),
        px.reference_limit as int,
    )
}

/// Extracts the file name of a path.
fn file_name_exec(p: &str) -> (r: String)
    ensures
        r@ == file_name_of(p@),
{
    let n = p.unicode_len();
    let start = match crate::file_processor::rfind_char(p, '/') {
        Some(i) => i + 1,
        None => 0,
    };
    let f = p.substring_char(start, n);
    proof {
        assert(f@ =~= file_name_of(p@));
    }
    f.to_owned()
}

/// The distinct target paths of a list of locations, first occurrence
/// first.
fn distinct_paths_exec(targets: &Vec<LocationInfo>) -> (r: Vec<String>)
    ensures
        r@.map_values(|s: String| s@) == distinct_paths(locs_v(targets@)),
{
    let ghost tv = locs_v(targets@);
    let mut paths: Vec<String> = Vec::new();
    let mut i: usize = 0;
    proof {
        assert(tv.take(0) =~= Seq::<LocV>::empty());
        assert(paths@.map_values(|s: String| s@) =~= Seq::<Seq<char>>::empty());
        assert(distinct_paths(tv.take(0)) =~= Seq::<Seq<char>>::empty());
    }
    while i < targets.len()
        invariant
            0 <= i <= targets@.len(),
            tv == locs_v(targets@),
            paths@.map_values(|s: String| s@) == distinct_paths(tv.take(i as int)),
        decreases targets@.len() - i,
    {
        let ghost prevp = paths@;
        let mut seen = false;
        let mut k: usize = 0;
        while k < paths.len() && !seen
            invariant
                0 <= k <= paths@.len(),
                i < targets@.len(),
                tv == locs_v(targets@),
                !seen ==> forall|l: int|
                    0 <= l < k ==> (#[trigger] paths@[l])@ != tv[i as int].path,
                seen ==> paths@.map_values(|s: String| s@).contains(tv[i as int].path),
            decreases paths@.len() - k + (if seen { 0int } else { 1int }),
        {
            if str_eq(paths[k].as_str(), targets[i].path.as_str()) {
                proof {
                    assert(paths@.map_values(|s: String| s@)[k as int] == tv[i as int].path);
                }
                seen = true;
            } else {
                k += 1;
            }
        }
        if !seen {
            paths.push(targets[i].path.clone());
        }
        proof {
            assert(tv.take(i + 1) =~= tv.take(i as int).push(tv[i as int]));
            assert(tv.take(i + 1).drop_last() =~= tv.take(i as int));
            let pm = prevp.map_values(|s: String| s@);
            if seen {
                assert(paths@.map_values(|s: String| s@) =~= distinct_paths(tv.take(i + 1)));
            } else {
                assert(!distinct_paths(tv.take(i as int)).contains(tv[i as int].path)) by {
                    if distinct_paths(tv.take(i as int)).contains(tv[i as int].path) {
                        let w = choose|w: int| 0 <= w < pm.len() && pm[w] == tv[i as int].path;
                        assert((prevp[w])@ == tv[i as int].path);
                        assert(false);
                    }
                }
                assert(paths@.map_values(|s: String| s@) =~= pm.push(
                    (paths@[paths@.len() - 1])@,
                ));
                assert(paths@.map_values(|s: String| s@) =~= distinct_paths(tv.take(i + 1)));
            }
        }
        i += 1;
    }
    proof {
        assert(tv.take(tv.len() as int) =~= tv);
    }
    paths
}

/// The targets recorded under one path, in order.
fn targets_of_path(targets: &Vec<LocationInfo>, p: &str) -> (r: Vec<LocationInfo>)
    ensures
        locs_v(r@) == locs_v(targets@).filter(loc_path_is(p@)),
{
    let ghost tv = locs_v(targets@);
    let ghost pred = loc_path_is(p@);
    let mut group: Vec<LocationInfo> = Vec::new();
    let mut j: usize = 0;
    proof {
        assert(tv.take(0) =~= Seq::<LocV>::empty());
        crate::seq_util::lemma_filter_none(Seq::<LocV>::empty(), pred);
        assert(locs_v(group@) =~= Seq::<LocV>::empty());
    }
    while j < targets.len()
        invariant
            0 <= j <= targets@.len(),
            tv == locs_v(targets@),
            pred == loc_path_is(p@),
            locs_v(group@) == tv.take(j as int).filter(pred),
        decreases targets@.len() - j,
    {
        let ghost prevg = group@;
        let keep = str_eq(targets[j].path.as_str(), p);
        if keep {
            group.push(targets[j].clone());
        }
        proof {
            assert(tv.take(j + 1) =~= tv.take(j as int).push(tv[j as int]));
            crate::seq_util::lemma_filter_take_step(tv, j as int, pred);
            assert(keep == pred(tv[j as int]));
            if keep {
                assert(locs_v(group@) =~= locs_v(prevg).push(loc_v(group@[group@.len() - 1])));
            } else {
                assert(locs_v(group@) =~= locs_v(prevg));
            }
        }
        j += 1;
    }
    proof {
        assert(tv.take(tv.len() as int) =~= tv);
    }
    group
}

/// Clones a whole target list.
fn all_targets(targets: &Vec<LocationInfo>) -> (r: Vec<LocationInfo>)
    ensures
        locs_v(r@) == locs_v(targets@),
{
    let ghost tv = locs_v(targets@);
    let mut all: Vec<LocationInfo> = Vec::new();
    let mut j: usize = 0;
    proof {
        assert(locs_v(all@) =~= Seq::<LocV>::empty());
        assert(tv.take(0) =~= Seq::<LocV>::empty());
    }
    while j < targets.len()
        invariant
            0 <= j <= targets@.len(),
            tv == locs_v(targets@),
            locs_v(all@) == tv.take(j as int),
        decreases targets@.len() - j,
    {
        let ghost preva = all@;
        all.push(targets[j].clone());
        proof {
            assert(locs_v(all@) =~= locs_v(preva).push(loc_v(all@[all@.len() - 1])));
            assert(tv.take(j + 1) =~= tv.take(j as int).push(tv[j as int]));
        }
        j += 1;
    }
    proof {
        assert(tv.take(tv.len() as int) =~= tv);
    }
    all
}

/// Groups targets by file, exactly as `group_spec` states.
pub fn group_targets(targets: &Vec<LocationInfo>, anchor: Range, limit: usize) -> (r: Vec<
    LensEntry,
>)
    ensures
        lens_vs(r@) == group_spec(locs_v(targets@), anchor, limit as int),
{
    let ghost tv = locs_v(targets@);
    let mut r: Vec<LensEntry> = Vec::new();
    if targets.len() == 0 {
        proof {
            assert(lens_vs(r@) =~= Seq::<LensV>::empty());
        }
        return r;
    }
    let paths = distinct_paths_exec(targets);
    let ghost dp = distinct_paths(tv);
    proof {
        assert(paths@.len() == dp.len());
    }
    if paths.len() > limit {
        // Too many target files: one summary entry.
        let all = all_targets(targets);
        let count = targets.len();
        r.push(LensEntry { range: anchor, label: LensLabel::References(count), targets: all });
        proof {
            assert(lens_v(r@[0]) =~= group_spec(tv, anchor, limit as int)[0]);
            assert(lens_vs(r@) =~= group_spec(tv, anchor, limit as int));
        }
        return r;
    }
    // One navigable entry per distinct target file.
    let ghost gs = group_spec(tv, anchor, limit as int);
    let mut q: usize = 0;
    while q < paths.len()
        invariant
            0 <= q <= paths@.len(),
            tv == locs_v(targets@),
            tv.len() > 0,
            dp == distinct_paths(tv),
            paths@.map_values(|s: String| s@) == dp,
            dp.len() <= limit,
            gs == group_spec(tv, anchor, limit as int),
            r@.len() == q,
            forall|x: int| 0 <= x < q ==> lens_v(#[trigger] r@[x]) == gs[x],
        decreases paths@.len() - q,
    {
        let group = targets_of_path(targets, paths[q].as_str());
        let label = LensLabel::GoToFile(file_name_exec(paths[q].as_str()));
        let ghost prevr = r@;
        r.push(LensEntry { range: anchor, label, targets: group });
        proof {
            assert((paths@[q as int])@ == dp[q as int]);
            assert(lens_v(r@[q as int]) =~= gs[q as int]);
            assert forall|x: int| 0 <= x < q + 1 implies lens_v(#[trigger] r@[x]) == gs[x] by {
                if x < q {
                    assert(r@[x] == prevr[x]);
                }
            }
        }
        q += 1;
    }
    proof {
        assert(lens_vs(r@) =~= gs);
    }
    r
}

/// Whether a path names a backend source file.
fn has_backend_ext(path: &str) -> (r: bool)
    ensures
        r == (ext_of(path@) == "rs"@),
{
    let d = crate::file_processor::rfind_char(path, '.');
    let sl = crate::file_processor::rfind_char(path, '/');
    let n = path.unicode_len();
    match d {
        None => {
            proof {
                assert(ext_of(path@) =~= Seq::<char>::empty());
                reveal_strlit("rs");
            }
            false
        },
        Some(di) => {
            let inside = match sl {
                None => true,
                Some(si) => di > si,
            };
            if !inside {
                proof {
                    assert(ext_of(path@) =~= Seq::<char>::empty());
                    reveal_strlit("rs");
                }
                return false;
            }
            let ext = path.substring_char(di + 1, n);
            proof {
                assert(ext@ =~= ext_of(path@));
            }
            str_eq(ext, "rs")
        },
    }
}

impl ProjectIndex {
    /// The reference groupings of one file, exactly as `lens_file_spec`
    /// states: for each occurrence of each distinct key of the file
    /// with locations in other files, those locations split into
    /// backend and frontend targets and grouped under the configured
    /// threshold.
    pub fn get_lens_data(&self, path: &str) -> (r: Vec<LensEntry>)
        ensures
            lens_vs(r@) == lens_file_spec(*self, path@),
    {
        let mut r: Vec<LensEntry> = Vec::new();
        let raw_keys = crate::indexer::collect_file_keys(self, path);
        let ks = crate::indexer::dedup_keys(&raw_keys);
        let ghost ksv = crate::indexer::keys_v(ks@);
        let is_rust_file = has_backend_ext(path);
        let limit = self.reference_limit;
        let mut i: usize = 0;
        proof {
            assert(ksv.skip(0) =~= ksv);
            assert(lens_vs(r@) =~= Seq::<LensV>::empty());
        }
        while i < ks.len()
            invariant
                0 <= i <= ks@.len(),
                ksv == crate::indexer::keys_v(ks@),
                ksv == crate::indexer::dedup_first(self.file_keys(path@)),
                is_rust_file == (ext_of(path@) == "rs"@),
                limit == self.reference_limit,
                lens_vs(r@) + lens_over_keys(*self, path@, ksv.skip(i as int), limit as int)
                    == lens_over_keys(*self, path@, ksv, limit as int),
            decreases ks@.len() - i,
        {
            let k = &ks[i];
            proof {
                assert(ksv.skip(i as int)[0] == ksv[i as int]);
                assert(ksv.skip(i as int).drop_first() =~= ksv.skip(i + 1));
                assert(crate::indexer::key_v(ks@[i as int]) == ksv[i as int]);
            }
            let all = self.get_locations(k.entity, k.name.as_str());
            let ghost kk = ksv[i as int];
            let ghost av = locs_v(all@);
            proof {
                assert(av == self.locs_of(kk.entity, kk.name));
            }
            // Split this key's locations into local anchors and
            // backend/frontend targets outside the file.
            let mut current: Vec<LocationInfo> = Vec::new();
            let mut rust_targets: Vec<LocationInfo> = Vec::new();
            let mut frontend_targets: Vec<LocationInfo> = Vec::new();
            let mut j: usize = 0;
            proof {
                assert(av.take(0) =~= Seq::<LocV>::empty());
                crate::seq_util::lemma_filter_none(Seq::<LocV>::empty(), loc_path_is(path@));
                crate::seq_util::lemma_filter_none(Seq::<LocV>::empty(), backend_target(path@));
                crate::seq_util::lemma_filter_none(Seq::<LocV>::empty(), frontend_target(path@));
                assert(locs_v(current@) =~= Seq::<LocV>::empty());
                assert(locs_v(rust_targets@) =~= Seq::<LocV>::empty());
                assert(locs_v(frontend_targets@) =~= Seq::<LocV>::empty());
            }
            while j < all.len()
                invariant
                    0 <= j <= all@.len(),
                    av == locs_v(all@),
                    locs_v(current@) == av.take(j as int).filter(loc_path_is(path@)),
                    locs_v(rust_targets@) == av.take(j as int).filter(backend_target(path@)),
                    locs_v(frontend_targets@) == av.take(j as int).filter(
                        frontend_target(path@),
                    ),
                decreases all@.len() - j,
            {
                let ghost pc = current@;
                let ghost pr = rust_targets@;
                let ghost pf = frontend_targets@;
                let l = &all[j];
                let local = str_eq(l.path.as_str(), path);
                if local {
                    current.push(l.clone());
                } else {
                    if has_backend_ext(l.path.as_str()) {
                        rust_targets.push(l.clone());
                    } else {
                        frontend_targets.push(l.clone());
                    }
                }
                proof {
                    assert(av.take(j + 1) =~= av.take(j as int).push(av[j as int]));
                    crate::seq_util::lemma_filter_take_step(av, j as int, loc_path_is(path@));
                    crate::seq_util::lemma_filter_take_step(av, j as int, backend_target(path@));
                    crate::seq_util::lemma_filter_take_step(av, j as int, frontend_target(path@));
                    if local {
                        assert(locs_v(current@) =~= locs_v(pc).push(
                            loc_v(current@[current@.len() - 1]),
                        ));
                        assert(locs_v(rust_targets@) =~= locs_v(pr));
                        assert(locs_v(frontend_targets@) =~= locs_v(pf));
                    } else {
                        assert(locs_v(current@) =~= locs_v(pc));
                        if backend_target(path@)(av[j as int]) {
                            assert(locs_v(rust_targets@) =~= locs_v(pr).push(
                                loc_v(rust_targets@[rust_targets@.len() - 1]),
                            ));
                            assert(locs_v(frontend_targets@) =~= locs_v(pf));
                        } else {
                            assert(locs_v(rust_targets@) =~= locs_v(pr));
                            assert(locs_v(frontend_targets@) =~= locs_v(pf).push(
                                loc_v(frontend_targets@[frontend_targets@.len() - 1]),
                            ));
                        }
                    }
                }
                j += 1;
            }
            proof {
                assert(av.take(av.len() as int) =~= av);
            }
            let ghost curv = locs_v(current@);
            let ghost rtv = locs_v(rust_targets@);
            let ghost ftv = locs_v(frontend_targets@);
            let ghost keystart = lens_vs(r@);
            if rust_targets.len() > 0 || frontend_targets.len() > 0 {
                let mut c: usize = 0;
                proof {
                    assert(curv.skip(0) =~= curv);
                }
                while c < current.len()
                    invariant
                        0 <= c <= current@.len(),
                        curv == locs_v(current@),
                        rtv == locs_v(rust_targets@),
                        ftv == locs_v(frontend_targets@),
                        is_rust_file == (ext_of(path@) == "rs"@),
                        limit == self.reference_limit,
                        keystart + anchors_lens(curv, is_rust_file, rtv, ftv, limit as int)
                            == lens_vs(r@) + anchors_lens(
                            curv.skip(c as int),
                            is_rust_file,
                            rtv,
                            ftv,
                            limit as int,
                        ),
                    decreases current@.len() - c,
                {
                    let anchor = current[c].range;
                    proof {
                        assert(curv.skip(c as int)[0] == curv[c as int]);
                        assert(curv.skip(c as int).drop_first() =~= curv.skip(c + 1));
                        assert(anchor == curv[c as int].range);
                    }
                    let ghost prevout = lens_vs(r@);
                    if is_rust_file {
                        let mut g = group_targets(&frontend_targets, anchor, limit);
                        let ghost gv = lens_vs(g@);
                        r.append(&mut g);
                        proof {
                            assert(lens_vs(r@) =~= prevout + gv);
                            assert(gv == anchor_groups(
                                is_rust_file,
                                rtv,
                                ftv,
                                anchor,
                                limit as int,
                            ));
                        }
                    } else {
                        let ghost part1 = if rtv.len() > 0 {
                            group_spec(rtv, anchor, limit as int)
                        } else {
                            Seq::<LensV>::empty()
                        };
                        if rust_targets.len() > 0 {
                            let mut g = group_targets(&rust_targets, anchor, limit);
                            let ghost gv = lens_vs(g@);
                            r.append(&mut g);
                            proof {
                                assert(lens_vs(r@) =~= prevout + gv);
                            }
                        }
                        let ghost mid = lens_vs(r@);
                        proof {
                            assert(mid =~= prevout + part1);
                        }
                        if frontend_targets.len() > 0 {
                            let mut g = group_targets(&frontend_targets, anchor, limit);
                            let ghost gv = lens_vs(g@);
                            r.append(&mut g);
                            proof {
                                assert(lens_vs(r@) =~= mid + gv);
                            }
                        }
                        proof {
                            assert(lens_vs(r@) =~= prevout + anchor_groups(
                                is_rust_file,
                                rtv,
                                ftv,
                                anchor,
                                limit as int,
                            ));
                        }
                    }
                    proof {
                        assert(prevout + (anchor_groups(
                            is_rust_file,
                            rtv,
                            ftv,
                            anchor,
                            limit as int,
                        ) + anchors_lens(
                            curv.skip(c + 1),
                            is_rust_file,
                            rtv,
                            ftv,
                            limit as int,
                        )) =~= (prevout + anchor_groups(
                            is_rust_file,
                            rtv,
                            ftv,
                            anchor,
                            limit as int,
                        )) + anchors_lens(curv.skip(c + 1), is_rust_file, rtv, ftv, limit as int));
                    }
                    c += 1;
                }
                proof {
                    assert(curv.skip(curv.len() as int).len() == 0);
                    assert(lens_vs(r@) =~= keystart + anchors_lens(
                        curv,
                        is_rust_file,
                        rtv,
                        ftv,
                        limit as int,
                    ));
                }
            }
            proof {
                assert(lens_vs(r@) =~= keystart + key_lens(*self, path@, kk, limit as int));
            }
            i += 1;
        }
        proof {
            assert(ksv.skip(ksv.len() as int).len() == 0);
            assert(lens_vs(r@) =~= lens_over_keys(*self, path@, ksv, limit as int));
        }
        r
    }
}

} // verus!
