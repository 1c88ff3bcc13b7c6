//! Matching a directory against the rules: a rule fires when the directory
//! holds one of its markers as a file, and each of its targets present as a
//! subdirectory is a match.

use vstd::prelude::*;
use crate::config::{Rule, RuleView, rule_views};
use crate::paths::{join, join_path};
use crate::text::{strings_contain, strs};

verus! {

/// A build dir found under a project: its path and the rule that found it.
pub struct Match {
    pub path: String,
    pub rule: String,
}

/// The mathematical content of a [`Match`].
pub struct MatchView {
    pub path: Seq<char>,
    pub rule: Seq<char>,
}

impl View for Match {
    type V = MatchView;

    open spec fn view(&self) -> MatchView {
        MatchView { path: self.path@, rule: self.rule@ }
    }
}

/// The views of a sequence of matches.
pub open spec fn match_views(ms: Seq<Match>) -> Seq<MatchView> {
    Seq::new(ms.len(), |i: int| ms[i]@)
}

/// Whether `dir` holds one of `markers`, given the paths `files` that are
/// regular files.
pub open spec fn has_marker(dir: Seq<char>, markers: Seq<Seq<char>>, files: Seq<Seq<char>>) -> bool {
    exists|i: int| 0 <= i < markers.len() && files.contains(join(dir, #[trigger] markers[i]))
}

/// The matches of one rule's `targets` under `dir`, in order, given the
/// paths `dirs` that are directories.
pub open spec fn target_matches(
    dir: Seq<char>,
    name: Seq<char>,
    targets: Seq<Seq<char>>,
    dirs: Seq<Seq<char>>,
) -> Seq<MatchView>
    decreases targets.len(),
{
    if targets.len() == 0 {
        Seq::<MatchView>::empty()
    } else {
        let prev = target_matches(dir, name, targets.drop_last(), dirs);
        let p = join(dir, targets.last());
        if dirs.contains(p) {
            prev.push(MatchView { path: p, rule: name })
        } else {
            prev
        }
    }
}

/// The matches of `rules` under `dir`, rule by rule and target by target.
pub open spec fn dir_matches(
    dir: Seq<char>,
    rules: Seq<RuleView>,
    files: Seq<Seq<char>>,
    dirs: Seq<Seq<char>>,
) -> Seq<MatchView>
    decreases rules.len(),
{
    if rules.len() == 0 {
        Seq::<MatchView>::empty()
    } else {
        let prev = dir_matches(dir, rules.drop_last(), files, dirs);
        let r = rules.last();
        if has_marker(dir, r.markers, files) {
            prev + target_matches(dir, r.name, r.targets, dirs)
        } else {
            prev
        }
    }
}

fn any_marker(dir: &str, markers: &Vec<String>, files: &Vec<String>) -> (b: bool)
    ensures
        b == has_marker(dir@, strs(markers@), strs(files@)),
{
    let mut i: usize = 0;
    while i < markers.len()
        invariant
            0 <= i <= markers.len(),
            forall|k: int| 0 <= k < i ==> !strs(files@).contains(join(dir@, #[trigger] strs(markers@)[k])),
        decreases markers.len() - i,
    {
        let p = join_path(dir, markers[i].as_str());
        if strings_contain(files, &p) {
            assert(strs(markers@)[i as int] == markers@[i as int]@);
            return true;
        }
        i = i + 1;
    }
    false
}

fn push_target_matches(out: &mut Vec<Match>, dir: &str, name: &String, targets: &Vec<String>, dirs: &Vec<String>)
    ensures
        match_views(final(out)@) == match_views(old(out)@) + target_matches(dir@, name@, strs(targets@), strs(dirs@)),
{
    let ghost start = match_views(out@);
    let mut i: usize = 0;
    assert(strs(targets@).take(0) =~= Seq::<Seq<char>>::empty());
    assert(start + Seq::<MatchView>::empty() =~= start);
    while i < targets.len()
        invariant
            0 <= i <= targets.len(),
            match_views(out@) == start + target_matches(dir@, name@, strs(targets@).take(i as int), strs(dirs@)),
        decreases targets.len() - i,
    {
        let ghost ts = strs(targets@).take(i as int + 1);
        assert(ts.drop_last() =~= strs(targets@).take(i as int));
        assert(ts.last() == targets@[i as int]@);
        let p = join_path(dir, targets[i].as_str());
        if strings_contain(dirs, &p) {
            let ghost before = out@;
            out.push(Match { path: p, rule: name.clone() });
            assert(match_views(out@) =~= match_views(before).push(MatchView { path: join(dir@, ts.last()), rule: name@ }));
        }
        i = i + 1;
    }
    assert(strs(targets@).take(targets.len() as int) =~= strs(targets@));
}

/// The build dirs under `dir` that `rules` select: for each rule with a
/// marker among `files` (the paths under `dir` that are regular files), each
/// of its targets among `dirs` (the paths under `dir` that are directories),
/// as `dir` joined with the target.
pub fn match_dir(dir: &str, rules: &Vec<Rule>, files: &Vec<String>, dirs: &Vec<String>) -> (out: Vec<Match>)
    ensures
        match_views(out@) == dir_matches(dir@, rule_views(rules@), strs(files@), strs(dirs@)),
{
    let mut out: Vec<Match> = Vec::new();
    let ghost rv = rule_views(rules@);
    let mut i: usize = 0;
    assert(rv.take(0) =~= Seq::<RuleView>::empty());
    assert(match_views(out@) =~= Seq::<MatchView>::empty());
    while i < rules.len()
        invariant
            0 <= i <= rules.len(),
            rv == rule_views(rules@),
            match_views(out@) == dir_matches(dir@, rv.take(i as int), strs(files@), strs(dirs@)),
        decreases rules.len() - i,
    {
        let r = &rules[i];
        let ghost rs = rv.take(i as int + 1);
        assert(rs.drop_last() =~= rv.take(i as int));
        assert(rs.last() == r@);
        if any_marker(dir, &r.markers, files) {
            push_target_matches(&mut out, dir, &r.name, &r.targets, dirs);
        }
        i = i + 1;
    }
    assert(rv.take(rules.len() as int) =~= rv);
    out
}

/// Every match is `dir` joined with a target of a rule whose marker `dir`
/// holds, and carries that rule's name: nothing but a configured target is
/// ever matched.
pub proof fn lemma_matches_are_rule_targets(
    dir: Seq<char>,
    rules: Seq<RuleView>,
    files: Seq<Seq<char>>,
    dirs: Seq<Seq<char>>,
    k: int,
)
    requires
        0 <= k < dir_matches(dir, rules, files, dirs).len(),
    ensures
        exists|i: int, j: int|
            0 <= i < rules.len() && 0 <= j < rules[i].targets.len() && (exists|m: int|
                0 <= m < rules[i].markers.len() && files.contains(
                    join(dir, #[trigger] rules[i].markers[m]),
                )) && #[trigger] dir_matches(dir, rules, files, dirs)[k] == (MatchView {
                path: join(dir, rules[i].targets[j]),
                rule: rules[i].name,
            }) && dirs.contains(join(dir, #[trigger] rules[i].targets[j])),
    decreases rules.len(),
{
    let prev = dir_matches(dir, rules.drop_last(), files, dirs);
    let r = rules.last();
    if k < prev.len() {
        lemma_matches_are_rule_targets(dir, rules.drop_last(), files, dirs, k);
        let (i, j) = choose|i: int, j: int|
            0 <= i < rules.drop_last().len() && 0 <= j < rules.drop_last()[i].targets.len()
                && has_marker(dir, rules.drop_last()[i].markers, files) && #[trigger] prev[k] == (
            MatchView { path: join(dir, rules.drop_last()[i].targets[j]), rule: rules.drop_last()[i].name })
                && dirs.contains(join(dir, #[trigger] rules.drop_last()[i].targets[j]));
        assert(rules.drop_last()[i] == rules[i]);
        assert(dir_matches(dir, rules, files, dirs)[k] == prev[k]);
    } else {
        lemma_target_matches_are_targets(dir, r.name, r.targets, dirs, k - prev.len());
        let j = choose|j: int|
            0 <= j < r.targets.len() && #[trigger] target_matches(dir, r.name, r.targets, dirs)[k
                - prev.len()] == (MatchView { path: join(dir, r.targets[j]), rule: r.name })
                && dirs.contains(join(dir, r.targets[j]));
        assert(dir_matches(dir, rules, files, dirs)[k] == target_matches(dir, r.name, r.targets, dirs)[k - prev.len()]);
        assert(rules[rules.len() - 1] == r);
    }
}

/// Completeness of matching: whenever `dir` holds any one of a rule's
/// markers as a file, every target of that rule present under `dir` as a
/// directory is matched, with that rule's name.
pub proof fn lemma_match_dir_complete(
    dir: Seq<char>,
    rules: Seq<RuleView>,
    files: Seq<Seq<char>>,
    dirs: Seq<Seq<char>>,
    r: int,
    i: int,
    j: int,
)
    requires
        0 <= r < rules.len(),
        0 <= i < rules[r].markers.len(),
        files.contains(join(dir, rules[r].markers[i])),
        0 <= j < rules[r].targets.len(),
        dirs.contains(join(dir, rules[r].targets[j])),
    ensures
        dir_matches(dir, rules, files, dirs).contains(
            MatchView { path: join(dir, rules[r].targets[j]), rule: rules[r].name },
        ),
    decreases rules.len(),
{
    let prev = dir_matches(dir, rules.drop_last(), files, dirs);
    let last = rules.last();
    let want = MatchView { path: join(dir, rules[r].targets[j]), rule: rules[r].name };
    if r < rules.len() - 1 {
        assert(rules.drop_last()[r] == rules[r]);
        lemma_match_dir_complete(dir, rules.drop_last(), files, dirs, r, i, j);
        let k = choose|k: int| 0 <= k < prev.len() && prev[k] == want;
        if has_marker(dir, last.markers, files) {
            let all = prev + target_matches(dir, last.name, last.targets, dirs);
            assert(all[k] == want);
        }
        assert(dir_matches(dir, rules, files, dirs)[k] == want);
    } else {
        assert(rules[r] == last);
        assert(has_marker(dir, last.markers, files)) by {
            assert(files.contains(join(dir, last.markers[i])));
        }
        lemma_target_matches_complete(dir, last.name, last.targets, dirs, j);
        let t = target_matches(dir, last.name, last.targets, dirs);
        let k = choose|k: int| 0 <= k < t.len() && t[k] == want;
        assert((prev + t)[prev.len() + k] == want);
    }
}

proof fn lemma_target_matches_complete(
    dir: Seq<char>,
    name: Seq<char>,
    targets: Seq<Seq<char>>,
    dirs: Seq<Seq<char>>,
    j: int,
)
    requires
        0 <= j < targets.len(),
        dirs.contains(join(dir, targets[j])),
    ensures
        target_matches(dir, name, targets, dirs).contains(
            MatchView { path: join(dir, targets[j]), rule: name },
        ),
    decreases targets.len(),
{
    let want = MatchView { path: join(dir, targets[j]), rule: name };
    let prev = target_matches(dir, name, targets.drop_last(), dirs);
    if j < targets.len() - 1 {
        assert(targets.drop_last()[j] == targets[j]);
        lemma_target_matches_complete(dir, name, targets.drop_last(), dirs, j);
        let k = choose|k: int| 0 <= k < prev.len() && prev[k] == want;
        let p = join(dir, targets.last());
        if dirs.contains(p) {
            assert(prev.push(MatchView { path: p, rule: name })[k] == want);
        }
        assert(target_matches(dir, name, targets, dirs)[k] == want);
    } else {
        assert(targets.last() == targets[j]);
        assert(target_matches(dir, name, targets, dirs)[prev.len() as int] == want);
    }
}

proof fn lemma_target_matches_are_targets(
    dir: Seq<char>,
    name: Seq<char>,
    targets: Seq<Seq<char>>,
    dirs: Seq<Seq<char>>,
    k: int,
)
    requires
        0 <= k < target_matches(dir, name, targets, dirs).len(),
    ensures
        exists|j: int|
            0 <= j < targets.len() && #[trigger] target_matches(dir, name, targets, dirs)[k] == (
            MatchView { path: join(dir, targets[j]), rule: name }) && dirs.contains(join(dir, targets[j])),
    decreases targets.len(),
{
    let prev = target_matches(dir, name, targets.drop_last(), dirs);
    if k < prev.len() {
        lemma_target_matches_are_targets(dir, name, targets.drop_last(), dirs, k);
        let j = choose|j: int|
            0 <= j < targets.drop_last().len() && #[trigger] prev[k] == (MatchView {
                path: join(dir, targets.drop_last()[j]),
                rule: name,
            }) && dirs.contains(join(dir, targets.drop_last()[j]));
        assert(targets.drop_last()[j] == targets[j]);
    } else {
        assert(targets[targets.len() - 1] == targets.last());
    }
}

} // verus!
