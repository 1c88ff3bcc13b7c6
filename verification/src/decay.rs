//! Decay: choosing the long-dormant excluded build dirs that may go to the
//! Trash. A dir is chosen only if all five hold: it matches a rule target,
//! it currently carries the exclusion, it is at least `max_age_days` old, it
//! is at least `min_size_mb` large, and neither its rule nor a prefix of its
//! path is excluded from decay or ignored.

use vstd::prelude::*;
use crate::config::{Config, rule_views};
use crate::paths::{path_eq, path_starts_with, same_path, starts_with};
use crate::rules::{MatchView, dir_matches, lemma_matches_are_rule_targets, has_marker, match_dir};
use crate::paths::join;
use crate::text::{strings_contain, strs};

verus! {

/// What the walk saw in one directory: the paths under it that are regular
/// files, and those that are directories.
pub struct DirProbe {
    pub dir: String,
    pub files: Vec<String>,
    pub dirs: Vec<String>,
}

/// A dir chosen for decay.
pub struct Candidate {
    pub path: String,
    pub rule: String,
    pub size_bytes: u64,
    pub age_days: u64,
    pub trashed: bool,
}

/// The size floor in bytes.
pub open spec fn min_bytes(cfg: &Config) -> nat {
    cfg.decay.min_size_mb as nat * 1048576
}

/// Whether `path` lies under one of `roots`, whole components only.
pub open spec fn under_any(path: Seq<char>, roots: Seq<Seq<char>>) -> bool {
    exists|i: int| 0 <= i < roots.len() && starts_with(path, #[trigger] roots[i])
}

/// Whether `path` lies under one of `roots`.
pub fn path_under_any(path: &String, roots: &Vec<String>) -> (b: bool)
    ensures
        b == under_any(path@, strs(roots@)),
{
    let mut i: usize = 0;
    while i < roots.len()
        invariant
            0 <= i <= roots.len(),
            forall|k: int| 0 <= k < i ==> !starts_with(path@, #[trigger] strs(roots@)[k]),
        decreases roots.len() - i,
    {
        if path_starts_with(path.as_str(), roots[i].as_str()) {
            assert(strs(roots@)[i as int] == roots@[i as int]@);
            return true;
        }
        i = i + 1;
    }
    false
}

/// Neither the rule nor the path is kept out of decay: the rule is not in
/// `exclude_rules`, and the path is under no `ignore` or `exclude_paths`
/// entry.
pub open spec fn passes_filters(cfg: &Config, path: Seq<char>, rule: Seq<char>) -> bool {
    &&& !strs(cfg.decay.exclude_rules@).contains(rule)
    &&& !under_any(path, strs(cfg.ignore@))
    &&& !under_any(path, strs(cfg.decay.exclude_paths@))
}

/// Whether the rule/path filters let `m` through.
pub fn decay_allows(cfg: &Config, path: &String, rule: &String) -> (b: bool)
    ensures
        b == passes_filters(cfg, path@, rule@),
{
    !strings_contain(&cfg.decay.exclude_rules, rule) && !path_under_any(path, &cfg.ignore)
        && !path_under_any(path, &cfg.decay.exclude_paths)
}

/// The matches the rules of `cfg` find in one probed directory.
pub open spec fn probe_matches(cfg: &Config, p: DirProbe) -> Seq<MatchView> {
    dir_matches(p.dir@, rule_views(cfg.rules@), strs(p.files@), strs(p.dirs@))
}

/// Whether `(path, rule)` is among the matches of the probed directories.
pub open spec fn found_in(cfg: &Config, probes: Seq<DirProbe>, path: Seq<char>, rule: Seq<char>) -> bool {
    exists|p: int, q: int|
        0 <= p < probes.len() && 0 <= q < probe_matches(cfg, probes[p]).len() && #[trigger] probe_matches(
            cfg,
            probes[p],
        )[q] == (MatchView { path, rule })
}

/// `c` was chosen soundly: it is a match that passes the filters, the
/// exclusion probe reported it excluded, and the age and size probes
/// reported the values it carries, which reach the thresholds.
pub open spec fn selected<F: Fn(&String) -> bool, G: Fn(&String) -> u64, H: Fn(&String) -> u64>(
    cfg: &Config,
    probes: Seq<DirProbe>,
    c: Candidate,
    is_excluded_fn: F,
    age_fn: G,
    size_fn: H,
) -> bool {
    &&& found_in(cfg, probes, c.path@, c.rule@)
    &&& passes_filters(cfg, c.path@, c.rule@)
    &&& call_ensures(is_excluded_fn, (&c.path,), true)
    &&& call_ensures(age_fn, (&c.path,), c.age_days)
    &&& c.age_days >= cfg.decay.max_age_days
    &&& call_ensures(size_fn, (&c.path,), c.size_bytes)
    &&& c.size_bytes >= min_bytes(cfg)
    &&& !c.trashed
}

/// Every answer the exclusion probe can give for `path` is "excluded", every
/// age at least `max_age`, every size at least `min`.
pub open spec fn qualifies<F: Fn(&String) -> bool, G: Fn(&String) -> u64, H: Fn(&String) -> u64>(
    path: Seq<char>,
    is_excluded_fn: F,
    age_fn: G,
    size_fn: H,
    max_age: u64,
    min: nat,
) -> bool {
    &&& forall|s: String, b: bool| s@ == path && call_ensures(is_excluded_fn, (&s,), b) ==> b
    &&& forall|s: String, a: u64| s@ == path && call_ensures(age_fn, (&s,), a) ==> a >= max_age
    &&& forall|s: String, z: u64| s@ == path && call_ensures(size_fn, (&s,), z) ==> z >= min
}

/// Whether some candidate in `cs` has the same path as `path`.
pub open spec fn covers(cs: Seq<Candidate>, path: Seq<char>) -> bool {
    exists|k: int| 0 <= k < cs.len() && same_path(#[trigger] cs[k].path@, path)
}

/// No two candidates in `cs` name the same path.
pub open spec fn distinct_paths(cs: Seq<Candidate>) -> bool {
    forall|a: int, b: int|
        0 <= a < b < cs.len() ==> !same_path(#[trigger] cs[a].path@, #[trigger] cs[b].path@)
}

/// Whether position `a` (directory, match) comes before position `b`.
pub open spec fn before(a: (int, int), b: (int, int)) -> bool {
    a.0 < b.0 || (a.0 == b.0 && a.1 < b.1)
}

/// `pos` gives, for each candidate in `cs`, the position of a match it
/// came from, and these positions increase: the candidates are listed in
/// the order of their matches.
pub open spec fn in_match_order(cfg: &Config, probes: Seq<DirProbe>, cs: Seq<Candidate>, pos: Seq<(int, int)>) -> bool {
    &&& pos.len() == cs.len()
    &&& forall|k: int|
        0 <= k < cs.len() ==> {
            &&& 0 <= (#[trigger] pos[k]).0 < probes.len()
            &&& 0 <= pos[k].1 < probe_matches(cfg, probes[pos[k].0]).len()
            &&& probe_matches(cfg, probes[pos[k].0])[pos[k].1] == (MatchView {
                path: cs[k].path@,
                rule: cs[k].rule@,
            })
        }
    &&& forall|a: int, b: int| 0 <= a < b < cs.len() ==> before(#[trigger] pos[a], #[trigger] pos[b])
}

/// Each candidate comes from the first match of its path that could be
/// chosen: no match at an earlier position names the same path, passes the
/// filters and qualifies.
pub open spec fn first_qualifying<F: Fn(&String) -> bool, G: Fn(&String) -> u64, H: Fn(&String) -> u64>(
    cfg: &Config,
    probes: Seq<DirProbe>,
    cs: Seq<Candidate>,
    pos: Seq<(int, int)>,
    is_excluded_fn: F,
    age_fn: G,
    size_fn: H,
) -> bool {
    forall|k: int, p: int, q: int|
        0 <= k < cs.len() && 0 <= p < probes.len() && 0 <= q < probe_matches(cfg, probes[p]).len()
            && before((p, q), #[trigger] pos[k]) && same_path(
            (#[trigger] probe_matches(cfg, probes[p])[q]).path,
            cs[k].path@,
        ) ==> !(passes_filters(
            cfg,
            probe_matches(cfg, probes[p])[q].path,
            probe_matches(cfg, probes[p])[q].rule,
        ) && qualifies(
            probe_matches(cfg, probes[p])[q].path,
            is_excluded_fn,
            age_fn,
            size_fn,
            cfg.decay.max_age_days,
            min_bytes(cfg),
        ))
}

fn seen_path(cs: &Vec<Candidate>, path: &String) -> (b: bool)
    ensures
        b == covers(cs@, path@),
{
    let mut i: usize = 0;
    while i < cs.len()
        invariant
            0 <= i <= cs.len(),
            forall|k: int| 0 <= k < i ==> !same_path(#[trigger] cs@[k].path@, path@),
        decreases cs.len() - i,
    {
        if path_eq(cs[i].path.as_str(), path.as_str()) {
            return true;
        }
        i = i + 1;
    }
    false
}

/// Chooses the decay candidates among the rule matches of the probed
/// directories. `is_excluded_fn`, `age_fn` and `size_fn` report whether a
/// path carries the exclusion, its age in days and its size in bytes; they
/// are asked in that order and only while the earlier checks pass. A path
/// is chosen once, for its first qualifying match; candidates come in the
/// order of their matches.
pub fn find_candidates_with<F: Fn(&String) -> bool, G: Fn(&String) -> u64, H: Fn(&String) -> u64>(
    cfg: &Config,
    probes: &Vec<DirProbe>,
    is_excluded_fn: F,
    age_fn: G,
    size_fn: H,
) -> (out: Vec<Candidate>)
    requires
        cfg.decay.min_size_mb as nat * 1048576 <= u64::MAX,
        forall|s: &String| is_excluded_fn.requires((s,)),
        forall|s: &String| age_fn.requires((s,)),
        forall|s: &String| size_fn.requires((s,)),
    ensures
        forall|k: int|
            0 <= k < out@.len() ==> selected(
                cfg,
                probes@,
                #[trigger] out@[k],
                is_excluded_fn,
                age_fn,
                size_fn,
            ),
        distinct_paths(out@),
        forall|k: int, i: int|
            0 <= k < out@.len() && 0 <= i < cfg.ignore@.len() ==> !starts_with(
                (#[trigger] out@[k]).path@,
                (#[trigger] cfg.ignore@[i])@,
            ),
        forall|k: int, i: int|
            0 <= k < out@.len() && 0 <= i < cfg.decay.exclude_paths@.len() ==> !starts_with(
                (#[trigger] out@[k]).path@,
                (#[trigger] cfg.decay.exclude_paths@[i])@,
            ),
        forall|k: int, i: int|
            0 <= k < out@.len() && 0 <= i < cfg.decay.exclude_rules@.len() ==> (#[trigger] out@[k]).rule@
                != (#[trigger] cfg.decay.exclude_rules@[i])@,
        exists|pos: Seq<(int, int)>|
            in_match_order(cfg, probes@, out@, pos) && first_qualifying(
                cfg,
                probes@,
                out@,
                pos,
                is_excluded_fn,
                age_fn,
                size_fn,
            ),
        forall|p: int, q: int|
            0 <= p < probes@.len() && 0 <= q < probe_matches(cfg, probes@[p]).len()
                && passes_filters(
                cfg,
                (#[trigger] probe_matches(cfg, probes@[p])[q]).path,
                probe_matches(cfg, probes@[p])[q].rule,
            ) && qualifies(
                probe_matches(cfg, probes@[p])[q].path,
                is_excluded_fn,
                age_fn,
                size_fn,
                cfg.decay.max_age_days,
                min_bytes(cfg),
            ) ==> covers(out@, probe_matches(cfg, probes@[p])[q].path),
        forall|p: int, q: int|
            0 <= p < probes@.len() && 0 <= q < probe_matches(cfg, probes@[p]).len() && (forall|i: int|
                0 <= i < cfg.ignore@.len() ==> !starts_with(
                    (#[trigger] probe_matches(cfg, probes@[p])[q]).path,
                    #[trigger] cfg.ignore@[i]@,
                )) && (forall|i: int|
                0 <= i < cfg.decay.exclude_paths@.len() ==> !starts_with(
                    probe_matches(cfg, probes@[p])[q].path,
                    #[trigger] cfg.decay.exclude_paths@[i]@,
                )) && (forall|i: int|
                0 <= i < cfg.decay.exclude_rules@.len() ==> probe_matches(cfg, probes@[p])[q].rule
                    != #[trigger] cfg.decay.exclude_rules@[i]@) && qualifies(
                probe_matches(cfg, probes@[p])[q].path,
                is_excluded_fn,
                age_fn,
                size_fn,
                cfg.decay.max_age_days,
                min_bytes(cfg),
            ) ==> covers(out@, probe_matches(cfg, probes@[p])[q].path),
{
    let min = cfg.decay.min_size_mb * 1048576;
    let mut out: Vec<Candidate> = Vec::new();
    let ghost mut pos: Seq<(int, int)> = Seq::empty();
    let mut i: usize = 0;
    while i < probes.len()
        invariant
            0 <= i <= probes.len(),
            min == min_bytes(cfg),
            forall|s: &String| is_excluded_fn.requires((s,)),
            forall|s: &String| age_fn.requires((s,)),
            forall|s: &String| size_fn.requires((s,)),
            forall|k: int|
                0 <= k < out@.len() ==> selected(
                    cfg,
                    probes@,
                    #[trigger] out@[k],
                    is_excluded_fn,
                    age_fn,
                    size_fn,
                ),
            distinct_paths(out@),
            in_match_order(cfg, probes@, out@, pos),
            first_qualifying(cfg, probes@, out@, pos, is_excluded_fn, age_fn, size_fn),
            forall|k: int| 0 <= k < pos.len() ==> (#[trigger] pos[k]).0 < i,
            forall|p: int, q: int|
                0 <= p < i && 0 <= q < probe_matches(cfg, probes@[p]).len() && passes_filters(
                    cfg,
                    (#[trigger] probe_matches(cfg, probes@[p])[q]).path,
                    probe_matches(cfg, probes@[p])[q].rule,
                ) && qualifies(
                    probe_matches(cfg, probes@[p])[q].path,
                    is_excluded_fn,
                    age_fn,
                    size_fn,
                    cfg.decay.max_age_days,
                    min_bytes(cfg),
                ) ==> covers(out@, probe_matches(cfg, probes@[p])[q].path),
        decreases probes.len() - i,
    {
        let probe = &probes[i];
        let ms = match_dir(probe.dir.as_str(), &cfg.rules, &probe.files, &probe.dirs);
        let ghost pm = probe_matches(cfg, probes@[i as int]);
        assert(crate::rules::match_views(ms@) == pm);
        let mut j: usize = 0;
        while j < ms.len()
            invariant
                0 <= i < probes.len(),
                0 <= j <= ms.len(),
                probe == &probes@[i as int],
                pm == probe_matches(cfg, probes@[i as int]),
                crate::rules::match_views(ms@) == pm,
                min == min_bytes(cfg),
                forall|s: &String| is_excluded_fn.requires((s,)),
                forall|s: &String| age_fn.requires((s,)),
                forall|s: &String| size_fn.requires((s,)),
                forall|k: int|
                    0 <= k < out@.len() ==> selected(
                        cfg,
                        probes@,
                        #[trigger] out@[k],
                        is_excluded_fn,
                        age_fn,
                        size_fn,
                    ),
                distinct_paths(out@),
                in_match_order(cfg, probes@, out@, pos),
                first_qualifying(cfg, probes@, out@, pos, is_excluded_fn, age_fn, size_fn),
                forall|k: int| 0 <= k < pos.len() ==> before(#[trigger] pos[k], (i as int, j as int)),
                forall|p: int, q: int|
                    ((0 <= p < i && 0 <= q < probe_matches(cfg, probes@[p]).len()) || (p == i && 0
                        <= q < j)) && passes_filters(
                        cfg,
                        (#[trigger] probe_matches(cfg, probes@[p])[q]).path,
                        probe_matches(cfg, probes@[p])[q].rule,
                    ) && qualifies(
                        probe_matches(cfg, probes@[p])[q].path,
                        is_excluded_fn,
                        age_fn,
                        size_fn,
                        cfg.decay.max_age_days,
                        min_bytes(cfg),
                    ) ==> covers(out@, probe_matches(cfg, probes@[p])[q].path),
            decreases ms.len() - j,
        {
            let m = &ms[j];
            let ghost mv = pm[j as int];
            assert(mv == m@);
            assert(found_in(cfg, probes@, m.path@, m.rule@)) by {
                assert(probe_matches(cfg, probes@[i as int])[j as int] == (MatchView {
                    path: m.path@,
                    rule: m.rule@,
                }));
            }
            let ghost before_out = out@;
            if decay_allows(cfg, &m.path, &m.rule) {
                let excluded = is_excluded_fn(&m.path);
                if excluded {
                    let age = age_fn(&m.path);
                    if age >= cfg.decay.max_age_days {
                        let size = size_fn(&m.path);
                        if size >= min {
                            if !seen_path(&out, &m.path) {
                                let c = Candidate {
                                    path: m.path.clone(),
                                    rule: m.rule.clone(),
                                    size_bytes: size,
                                    age_days: age,
                                    trashed: false,
                                };
                                out.push(c);
                                proof {
                                    let old_pos = pos;
                                    pos = pos.push((i as int, j as int));
                                    assert forall|a: int, b: int| 0 <= a < b < out@.len() implies before(
                                        #[trigger] pos[a],
                                        #[trigger] pos[b],
                                    ) by {
                                        if b < old_pos.len() {
                                            assert(pos[a] == old_pos[a] && pos[b] == old_pos[b]);
                                        } else {
                                            assert(pos[a] == old_pos[a]);
                                        }
                                    }
                                    assert forall|k: int| 0 <= k < out@.len() implies {
                                        &&& 0 <= (#[trigger] pos[k]).0 < probes@.len()
                                        &&& 0 <= pos[k].1 < probe_matches(cfg, probes@[pos[k].0]).len()
                                        &&& probe_matches(cfg, probes@[pos[k].0])[pos[k].1] == (MatchView {
                                            path: out@[k].path@,
                                            rule: out@[k].rule@,
                                        })
                                    } by {
                                        if k < old_pos.len() {
                                            assert(pos[k] == old_pos[k]);
                                            assert(out@[k] == before_out[k]);
                                        }
                                    }
                                    assert(out@[before_out.len() as int].path@ == mv.path);
                                    assert(same_path(out@[before_out.len() as int].path@, mv.path));
                                }
                            }
                        }
                    }
                }
            }
            proof {
                assert forall|p: int, q: int|
                    ((0 <= p < i && 0 <= q < probe_matches(cfg, probes@[p]).len()) || (p == i && 0
                        <= q < j + 1)) && passes_filters(
                        cfg,
                        (#[trigger] probe_matches(cfg, probes@[p])[q]).path,
                        probe_matches(cfg, probes@[p])[q].rule,
                    ) && qualifies(
                        probe_matches(cfg, probes@[p])[q].path,
                        is_excluded_fn,
                        age_fn,
                        size_fn,
                        cfg.decay.max_age_days,
                        min_bytes(cfg),
                    ) implies covers(out@, probe_matches(cfg, probes@[p])[q].path) by {
                    let path = probe_matches(cfg, probes@[p])[q].path;
                    if !(p == i && q == j) {
                        assert(covers(before_out, path));
                        let k = choose|k: int| 0 <= k < before_out.len() && same_path(#[trigger] before_out[k].path@, path);
                        assert(out@[k] == before_out[k]);
                    }
                }
            }
            j = j + 1;
        }
        i = i + 1;
    }
    assert forall|k: int, i: int|
        0 <= k < out@.len() && 0 <= i < cfg.ignore@.len() implies !starts_with(
            (#[trigger] out@[k]).path@,
            (#[trigger] cfg.ignore@[i])@,
        ) by {
        assert(selected(cfg, probes@, out@[k], is_excluded_fn, age_fn, size_fn));
        assert(strs(cfg.ignore@)[i] == cfg.ignore@[i]@);
    }
    assert forall|k: int, i: int|
        0 <= k < out@.len() && 0 <= i < cfg.decay.exclude_paths@.len() implies !starts_with(
            (#[trigger] out@[k]).path@,
            (#[trigger] cfg.decay.exclude_paths@[i])@,
        ) by {
        assert(selected(cfg, probes@, out@[k], is_excluded_fn, age_fn, size_fn));
        assert(strs(cfg.decay.exclude_paths@)[i] == cfg.decay.exclude_paths@[i]@);
    }
    assert forall|k: int, i: int|
        0 <= k < out@.len() && 0 <= i < cfg.decay.exclude_rules@.len() implies (
        #[trigger] out@[k]).rule@ != (#[trigger] cfg.decay.exclude_rules@[i])@ by {
        assert(selected(cfg, probes@, out@[k], is_excluded_fn, age_fn, size_fn));
        assert(strs(cfg.decay.exclude_rules@)[i] == cfg.decay.exclude_rules@[i]@);
    }
    assert forall|p: int, q: int|
        0 <= p < probes@.len() && 0 <= q < probe_matches(cfg, probes@[p]).len() && (forall|i: int|
            0 <= i < cfg.ignore@.len() ==> !starts_with(
                (#[trigger] probe_matches(cfg, probes@[p])[q]).path,
                #[trigger] cfg.ignore@[i]@,
            )) && (forall|i: int|
            0 <= i < cfg.decay.exclude_paths@.len() ==> !starts_with(
                probe_matches(cfg, probes@[p])[q].path,
                #[trigger] cfg.decay.exclude_paths@[i]@,
            )) && (forall|i: int|
            0 <= i < cfg.decay.exclude_rules@.len() ==> probe_matches(cfg, probes@[p])[q].rule
                != #[trigger] cfg.decay.exclude_rules@[i]@) && qualifies(
            probe_matches(cfg, probes@[p])[q].path,
            is_excluded_fn,
            age_fn,
            size_fn,
            cfg.decay.max_age_days,
            min_bytes(cfg),
        ) implies covers(out@, probe_matches(cfg, probes@[p])[q].path) by {
        let m = probe_matches(cfg, probes@[p])[q];
        assert(!under_any(m.path, strs(cfg.ignore@))) by {
            if under_any(m.path, strs(cfg.ignore@)) {
                let i = choose|i: int| 0 <= i < strs(cfg.ignore@).len() && starts_with(m.path, #[trigger] strs(cfg.ignore@)[i]);
                assert(strs(cfg.ignore@)[i] == cfg.ignore@[i]@);
            }
        }
        assert(!under_any(m.path, strs(cfg.decay.exclude_paths@))) by {
            if under_any(m.path, strs(cfg.decay.exclude_paths@)) {
                let i = choose|i: int|
                    0 <= i < strs(cfg.decay.exclude_paths@).len() && starts_with(m.path, #[trigger] strs(cfg.decay.exclude_paths@)[i]);
                assert(strs(cfg.decay.exclude_paths@)[i] == cfg.decay.exclude_paths@[i]@);
            }
        }
        assert(!strs(cfg.decay.exclude_rules@).contains(m.rule)) by {
            if strs(cfg.decay.exclude_rules@).contains(m.rule) {
                let i = choose|i: int| 0 <= i < strs(cfg.decay.exclude_rules@).len() && strs(cfg.decay.exclude_rules@)[i] == m.rule;
                assert(strs(cfg.decay.exclude_rules@)[i] == cfg.decay.exclude_rules@[i]@);
            }
        }
        assert(passes_filters(cfg, m.path, m.rule));
    }
    assert(in_match_order(cfg, probes@, out@, pos) && first_qualifying(
        cfg,
        probes@,
        out@,
        pos,
        is_excluded_fn,
        age_fn,
        size_fn,
    ));
    out
}

/// Decay's safety invariant: whatever `find_candidates_with` chooses is a
/// probed directory joined with a target of a rule whose marker that
/// directory holds, the target being present there as a directory, and the
/// candidate carries that rule's name. A dir whose name is no configured
/// target is never chosen, however old and excluded it is.
pub proof fn lemma_candidates_are_rule_targets(
    cfg: &Config,
    probes: Seq<DirProbe>,
    path: Seq<char>,
    rule: Seq<char>,
)
    requires
        found_in(cfg, probes, path, rule),
    ensures
        exists|p: int, i: int, j: int|
            #![trigger probes[p], cfg.rules@[i]@.targets[j]]
            0 <= p < probes.len() && 0 <= i < cfg.rules@.len() && 0 <= j
                < cfg.rules@[i]@.targets.len() && path == join(
                probes[p].dir@,
                cfg.rules@[i]@.targets[j],
            ) && rule == cfg.rules@[i]@.name && (exists|m: int|
                0 <= m < cfg.rules@[i]@.markers.len() && strs(probes[p].files@).contains(
                    join(probes[p].dir@, #[trigger] cfg.rules@[i]@.markers[m]),
                )) && strs(probes[p].dirs@).contains(path),
{
    let (p, q) = choose|p: int, q: int|
        0 <= p < probes.len() && 0 <= q < probe_matches(cfg, probes[p]).len()
            && #[trigger] probe_matches(cfg, probes[p])[q] == (MatchView { path, rule });
    let rv = rule_views(cfg.rules@);
    lemma_matches_are_rule_targets(probes[p].dir@, rv, strs(probes[p].files@), strs(probes[p].dirs@), q);
    let (i, j) = choose|i: int, j: int|
        0 <= i < rv.len() && 0 <= j < rv[i].targets.len() && has_marker(
            probes[p].dir@,
            rv[i].markers,
            strs(probes[p].files@),
        ) && #[trigger] dir_matches(probes[p].dir@, rv, strs(probes[p].files@), strs(probes[p].dirs@))[q] == (
        MatchView { path: join(probes[p].dir@, rv[i].targets[j]), rule: rv[i].name })
            && strs(probes[p].dirs@).contains(join(probes[p].dir@, #[trigger] rv[i].targets[j]));
    assert(rv[i] == cfg.rules@[i]@);
}

/// Whole days from `mtime` to `now`, each given as seconds and nanoseconds
/// since the epoch (`(now - mtime).as_secs() / 86400`); zero when `mtime`
/// lies in the future.
pub open spec fn days_between(now_secs: u64, now_nanos: u32, mtime_secs: u64, mtime_nanos: u32) -> nat {
    let diff = (now_secs * 1_000_000_000 + now_nanos) - (mtime_secs * 1_000_000_000 + mtime_nanos);
    if diff < 0 {
        0
    } else {
        (diff / 1_000_000_000) as nat / 86400
    }
}

/// The age in days of something last modified at `mtime`, seen at `now`
/// (both as seconds and nanoseconds since the epoch, nanoseconds below one
/// second); zero for a modification time in the future.
pub fn age_days_between(now_secs: u64, now_nanos: u32, mtime_secs: u64, mtime_nanos: u32) -> (d: u64)
    requires
        now_nanos < 1_000_000_000,
        mtime_nanos < 1_000_000_000,
    ensures
        d == days_between(now_secs, now_nanos, mtime_secs, mtime_nanos),
{
    if now_secs < mtime_secs || (now_secs == mtime_secs && now_nanos < mtime_nanos) {
        assert((now_secs * 1_000_000_000 + now_nanos) - (mtime_secs * 1_000_000_000 + mtime_nanos)
            < 0) by (nonlinear_arith)
            requires
                now_secs < mtime_secs || (now_secs == mtime_secs && now_nanos < mtime_nanos),
                now_nanos < 1_000_000_000,
                mtime_nanos < 1_000_000_000,
        ;
        return 0;
    }
    let secs = if now_nanos >= mtime_nanos {
        now_secs - mtime_secs
    } else {
        now_secs - mtime_secs - 1
    };
    assert(((now_secs * 1_000_000_000 + now_nanos) - (mtime_secs * 1_000_000_000 + mtime_nanos))
        / 1_000_000_000 == secs) by (nonlinear_arith)
        requires
            now_secs > mtime_secs || (now_secs == mtime_secs && now_nanos >= mtime_nanos),
            now_nanos < 1_000_000_000,
            mtime_nanos < 1_000_000_000,
            secs == if now_nanos >= mtime_nanos {
                now_secs - mtime_secs
            } else {
                now_secs - mtime_secs - 1
            },
    ;
    secs / 86400
}

/// The sum of the candidates' sizes.
pub open spec fn total_size(cs: Seq<Candidate>) -> nat
    decreases cs.len(),
{
    if cs.len() == 0 {
        0
    } else {
        total_size(cs.drop_last()) + cs.last().size_bytes as nat
    }
}

/// The sum of the candidates' sizes, or `None` when it does not fit in a
/// `u64`.
pub fn total_candidate_bytes(cs: &Vec<Candidate>) -> (t: Option<u64>)
    ensures
        match t {
            Some(v) => v == total_size(cs@),
            None => total_size(cs@) > u64::MAX,
        },
{
    let mut sum: u64 = 0;
    let mut i: usize = 0;
    while i < cs.len()
        invariant
            0 <= i <= cs.len(),
            sum == total_size(cs@.take(i as int)),
        decreases cs.len() - i,
    {
        assert(cs@.take(i as int + 1).drop_last() =~= cs@.take(i as int));
        match sum.checked_add(cs[i].size_bytes) {
            Some(v) => {
                sum = v;
            },
            None => {
                proof {
                    lemma_total_size_prefix(cs@, i as int + 1);
                }
                return None;
            },
        }
        i = i + 1;
    }
    assert(cs@.take(cs.len() as int) =~= cs@);
    Some(sum)
}

/// The sum of `sizes`.
pub open spec fn sum_of(sizes: Seq<u64>) -> nat
    decreases sizes.len(),
{
    if sizes.len() == 0 {
        0
    } else {
        sum_of(sizes.drop_last()) + sizes.last() as nat
    }
}

proof fn lemma_sum_prefix(sizes: Seq<u64>, i: int)
    requires
        0 <= i <= sizes.len(),
    ensures
        sum_of(sizes.take(i)) <= sum_of(sizes),
    decreases sizes.len(),
{
    if i < sizes.len() {
        assert(sizes.drop_last().take(i) =~= sizes.take(i));
        lemma_sum_prefix(sizes.drop_last(), i);
    } else {
        assert(sizes.take(i) =~= sizes);
    }
}

/// The size of a directory from the sizes of its files: their sum, or
/// `None` when it does not fit in a `u64`.
pub fn dir_size_of(file_sizes: &Vec<u64>) -> (t: Option<u64>)
    ensures
        match t {
            Some(v) => v == sum_of(file_sizes@),
            None => sum_of(file_sizes@) > u64::MAX,
        },
{
    let mut sum: u64 = 0;
    let mut i: usize = 0;
    while i < file_sizes.len()
        invariant
            0 <= i <= file_sizes.len(),
            sum == sum_of(file_sizes@.take(i as int)),
        decreases file_sizes.len() - i,
    {
        assert(file_sizes@.take(i as int + 1).drop_last() =~= file_sizes@.take(i as int));
        match sum.checked_add(file_sizes[i]) {
            Some(v) => {
                sum = v;
            },
            None => {
                proof {
                    lemma_sum_prefix(file_sizes@, i as int + 1);
                }
                return None;
            },
        }
        i = i + 1;
    }
    assert(file_sizes@.take(file_sizes.len() as int) =~= file_sizes@);
    Some(sum)
}

proof fn lemma_total_size_prefix(cs: Seq<Candidate>, i: int)
    requires
        0 <= i <= cs.len(),
    ensures
        total_size(cs.take(i)) <= total_size(cs),
    decreases cs.len(),
{
    if i < cs.len() {
        assert(cs.drop_last().take(i) =~= cs.take(i));
        lemma_total_size_prefix(cs.drop_last(), i);
    } else {
        assert(cs.take(i) =~= cs);
    }
}

} // verus!
