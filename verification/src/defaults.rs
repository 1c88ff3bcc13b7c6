//! The baked-in rules for common ecosystems.

use vstd::prelude::*;
use crate::config::{Rule, RuleView, allowed, has_rule_named, lemma_merge_user_rules_win, merged, rule_views};
use crate::paths::join;
use crate::rules::{MatchView, dir_matches, lemma_match_dir_complete, lemma_matches_are_rule_targets};
use crate::text::{owned, strs};

verus! {

fn strings0() -> (v: Vec<String>)
    ensures
        strs(v@) == Seq::<Seq<char>>::empty(),
{
    let v: Vec<String> = Vec::new();
    assert(strs(v@) =~= Seq::<Seq<char>>::empty());
    v
}

fn strings1(a: &str) -> (v: Vec<String>)
    ensures
        strs(v@) == seq![a@],
{
    let mut v: Vec<String> = Vec::new();
    v.push(owned(a));
    assert(strs(v@) =~= seq![a@]);
    v
}

fn strings2(a: &str, b: &str) -> (v: Vec<String>)
    ensures
        strs(v@) == seq![a@, b@],
{
    let mut v: Vec<String> = Vec::new();
    v.push(owned(a));
    v.push(owned(b));
    assert(strs(v@) =~= seq![a@, b@]);
    v
}

fn strings3(a: &str, b: &str, c: &str) -> (v: Vec<String>)
    ensures
        strs(v@) == seq![a@, b@, c@],
{
    let mut v: Vec<String> = Vec::new();
    v.push(owned(a));
    v.push(owned(b));
    v.push(owned(c));
    assert(strs(v@) =~= seq![a@, b@, c@]);
    v
}

fn rule(name: &str, markers: Vec<String>, targets: Vec<String>) -> (r: Rule)
    ensures
        r@ == (RuleView { name: name@, markers: strs(markers@), targets: strs(targets@) }),
{
    Rule { name: owned(name), markers, targets }
}

/// The baked-in rules: a rule fires when a directory holds one of its
/// markers, and its targets are the build dirs excluded there. Go's build
/// cache and Xcode's DerivedData are global, so `go` has no targets and
/// `swiftpm` targets SwiftPM's local `.build`; `terraform` also covers
/// OpenTofu.
pub open spec fn default_rule_views() -> Seq<RuleView> {
    seq![
        RuleView { name: "rust"@, markers: seq!["Cargo.toml"@], targets: seq!["target"@] },
        RuleView {
            name: "node"@,
            markers: seq!["package.json"@],
            targets: seq!["node_modules"@, ".next"@, "dist"@],
        },
        RuleView {
            name: "python"@,
            markers: seq!["pyproject.toml"@, "setup.py"@],
            targets: seq![".venv"@, "__pycache__"@, "build"@],
        },
        RuleView { name: "go"@, markers: seq!["go.mod"@], targets: Seq::<Seq<char>>::empty() },
        RuleView { name: "swiftpm"@, markers: seq!["Package.swift"@], targets: seq![".build"@] },
        RuleView {
            name: "gradle"@,
            markers: seq!["build.gradle"@, "build.gradle.kts"@],
            targets: seq!["build"@, ".gradle"@],
        },
        RuleView { name: "maven"@, markers: seq!["pom.xml"@], targets: seq!["target"@] },
        RuleView {
            name: "terraform"@,
            markers: seq![".terraform.lock.hcl"@],
            targets: seq![".terraform"@],
        },
        RuleView {
            name: "terragrunt"@,
            markers: seq!["terragrunt.hcl"@, "root.hcl"@],
            targets: seq![".terragrunt-cache"@],
        },
    ]
}

/// The baked-in rules, in order.
pub fn default_rules() -> (rules: Vec<Rule>)
    ensures
        rule_views(rules@) == default_rule_views(),
{
    let mut rules: Vec<Rule> = Vec::new();
    rules.push(rule("rust", strings1("Cargo.toml"), strings1("target")));
    rules.push(
        rule("node", strings1("package.json"), strings3("node_modules", ".next", "dist")),
    );
    rules.push(
        rule(
            "python",
            strings2("pyproject.toml", "setup.py"),
            strings3(".venv", "__pycache__", "build"),
        ),
    );
    rules.push(rule("go", strings1("go.mod"), strings0()));
    rules.push(rule("swiftpm", strings1("Package.swift"), strings1(".build")));
    rules.push(
        rule("gradle", strings2("build.gradle", "build.gradle.kts"), strings2("build", ".gradle")),
    );
    rules.push(rule("maven", strings1("pom.xml"), strings1("target")));
    rules.push(rule("terraform", strings1(".terraform.lock.hcl"), strings1(".terraform")));
    rules.push(
        rule("terragrunt", strings2("terragrunt.hcl", "root.hcl"), strings1(".terragrunt-cache")),
    );
    assert(rule_views(rules@) =~= default_rule_views());
    rules
}

/// The documented table of baked-in rules: `name` is a baked-in rule that
/// fires on the marker file `marker` (any one of its markers will do) and
/// excludes the target dir `target`. `go` excludes nothing.
pub open spec fn baked_in_entry(name: Seq<char>, marker: Seq<char>, target: Seq<char>) -> bool {
    ||| name == "rust"@ && marker == "Cargo.toml"@ && target == "target"@
    ||| name == "node"@ && marker == "package.json"@ && (target == "node_modules"@ || target == ".next"@
        || target == "dist"@)
    ||| name == "python"@ && (marker == "pyproject.toml"@ || marker == "setup.py"@) && (target
        == ".venv"@ || target == "__pycache__"@ || target == "build"@)
    ||| name == "swiftpm"@ && marker == "Package.swift"@ && target == ".build"@
    ||| name == "gradle"@ && (marker == "build.gradle"@ || marker == "build.gradle.kts"@) && (target
        == "build"@ || target == ".gradle"@)
    ||| name == "maven"@ && marker == "pom.xml"@ && target == "target"@
    ||| name == "terraform"@ && marker == ".terraform.lock.hcl"@ && target == ".terraform"@
    ||| name == "terragrunt"@ && (marker == "terragrunt.hcl"@ || marker == "root.hcl"@) && target
        == ".terragrunt-cache"@
}

proof fn lemma_default_names_distinct()
    ensures
        forall|i: int, j: int|
            0 <= i < default_rule_views().len() && 0 <= j < default_rule_views().len() && i != j
                ==> (#[trigger] default_rule_views()[i]).name != (#[trigger] default_rule_views()[j]).name,
{
    reveal_strlit("rust");
    reveal_strlit("node");
    reveal_strlit("python");
    reveal_strlit("go");
    reveal_strlit("swiftpm");
    reveal_strlit("gradle");
    reveal_strlit("maven");
    reveal_strlit("terraform");
    reveal_strlit("terragrunt");
    let d = default_rule_views();
    assert(d[0].name.len() == 4 && d[0].name[0] == 'r');
    assert(d[1].name.len() == 4 && d[1].name[0] == 'n');
    assert(d[2].name.len() == 6 && d[2].name[0] == 'p');
    assert(d[3].name.len() == 2);
    assert(d[4].name.len() == 7);
    assert(d[5].name.len() == 6 && d[5].name[0] == 'g');
    assert(d[6].name.len() == 5);
    assert(d[7].name.len() == 9);
    assert(d[8].name.len() == 10);
    assert forall|i: int, j: int|
        0 <= i < d.len() && 0 <= j < d.len() && i != j implies (#[trigger] d[i]).name != (#[trigger] d[j]).name by {
        if d[i].name == d[j].name {
            assert(d[i].name.len() == d[j].name.len());
            if d[i].name.len() == 4 || d[i].name.len() == 6 {
                assert(d[i].name[0] == d[j].name[0]);
            }
        }
    }
}

proof fn lemma_default_fires(
    user: Seq<RuleView>,
    allow: Option<Seq<Seq<char>>>,
    dir: Seq<char>,
    files: Seq<Seq<char>>,
    dirs: Seq<Seq<char>>,
    j: int,
    i: int,
    t: int,
)
    requires
        0 <= j < default_rule_views().len(),
        0 <= i < default_rule_views()[j].markers.len(),
        0 <= t < default_rule_views()[j].targets.len(),
        allowed(allow, default_rule_views()[j].name),
        !has_rule_named(user, default_rule_views()[j].name),
        files.contains(join(dir, default_rule_views()[j].markers[i])),
        dirs.contains(join(dir, default_rule_views()[j].targets[t])),
    ensures
        dir_matches(dir, merged(user, default_rule_views(), allow), files, dirs).contains(
            MatchView {
                path: join(dir, default_rule_views()[j].targets[t]),
                rule: default_rule_views()[j].name,
            },
        ),
{
    let d = default_rule_views();
    let m = merged(user, d, allow);
    lemma_merge_user_rules_win(user, d, allow);
    lemma_default_names_distinct();
    assert(has_rule_named(m, d[j].name));
    let k = choose|k: int| 0 <= k < m.len() && (#[trigger] m[k]).name == d[j].name;
    if k < user.len() {
        assert(m.take(user.len() as int)[k] == m[k]);
        assert(user[k].name == d[j].name);
        assert(false);
    }
    let j2 = choose|j2: int| 0 <= j2 < d.len() && #[trigger] m[k] == d[j2];
    assert(d[j2].name == d[j].name);
    assert(j2 == j);
    lemma_match_dir_complete(dir, m, files, dirs, k, i, t);
}

/// Baked-in rules apply automatically: wherever the user defines no rule of
/// a baked-in rule's name and the allowlist selects it, a directory holding
/// any one of that rule's documented markers has each of its documented
/// target dirs that is present matched, under that rule's name.
pub proof fn lemma_baked_in_rule_fires(
    user: Seq<RuleView>,
    allow: Option<Seq<Seq<char>>>,
    dir: Seq<char>,
    files: Seq<Seq<char>>,
    dirs: Seq<Seq<char>>,
    name: Seq<char>,
    marker: Seq<char>,
    target: Seq<char>,
)
    requires
        baked_in_entry(name, marker, target),
        allowed(allow, name),
        !has_rule_named(user, name),
        files.contains(join(dir, marker)),
        dirs.contains(join(dir, target)),
    ensures
        dir_matches(dir, merged(user, default_rule_views(), allow), files, dirs).contains(
            MatchView { path: join(dir, target), rule: name },
        ),
{
    if name == "rust"@ && marker == "Cargo.toml"@ && target == "target"@ {
        lemma_default_fires(user, allow, dir, files, dirs, 0, 0, 0);
    } else if name == "node"@ && marker == "package.json"@ && (target == "node_modules"@ || target
        == ".next"@ || target == "dist"@) {
        let t: int = if target == "node_modules"@ { 0 } else if target == ".next"@ { 1 } else { 2 };
        lemma_default_fires(user, allow, dir, files, dirs, 1, 0, t);
    } else if name == "python"@ && (marker == "pyproject.toml"@ || marker == "setup.py"@) && (target
        == ".venv"@ || target == "__pycache__"@ || target == "build"@) {
        let i: int = if marker == "pyproject.toml"@ { 0 } else { 1 };
        let t: int = if target == ".venv"@ { 0 } else if target == "__pycache__"@ { 1 } else { 2 };
        lemma_default_fires(user, allow, dir, files, dirs, 2, i, t);
    } else if name == "swiftpm"@ && marker == "Package.swift"@ && target == ".build"@ {
        lemma_default_fires(user, allow, dir, files, dirs, 4, 0, 0);
    } else if name == "gradle"@ && (marker == "build.gradle"@ || marker == "build.gradle.kts"@) && (
    target == "build"@ || target == ".gradle"@) {
        let i: int = if marker == "build.gradle"@ { 0 } else { 1 };
        let t: int = if target == "build"@ { 0 } else { 1 };
        lemma_default_fires(user, allow, dir, files, dirs, 5, i, t);
    } else if name == "maven"@ && marker == "pom.xml"@ && target == "target"@ {
        lemma_default_fires(user, allow, dir, files, dirs, 6, 0, 0);
    } else if name == "terraform"@ && marker == ".terraform.lock.hcl"@ && target == ".terraform"@ {
        lemma_default_fires(user, allow, dir, files, dirs, 7, 0, 0);
    } else {
        let i: int = if marker == "terragrunt.hcl"@ { 0 } else { 1 };
        lemma_default_fires(user, allow, dir, files, dirs, 8, i, 0);
    }
}

proof fn lemma_default_documented(j: int, i: int, t: int)
    requires
        0 <= j < default_rule_views().len(),
        0 <= i < default_rule_views()[j].markers.len(),
        0 <= t < default_rule_views()[j].targets.len(),
    ensures
        baked_in_entry(
            default_rule_views()[j].name,
            default_rule_views()[j].markers[i],
            default_rule_views()[j].targets[t],
        ),
{
    let d = default_rule_views();
    if j == 0 {
    } else if j == 1 {
        if t == 0 {
        } else if t == 1 {
        } else {
        }
    } else if j == 2 {
        if i == 0 {
        } else {
        }
        if t == 0 {
        } else if t == 1 {
        } else {
        }
    } else if j == 3 {
    } else if j == 4 {
    } else if j == 5 {
        if i == 0 {
        } else {
        }
        if t == 0 {
        } else {
        }
    } else if j == 6 {
    } else if j == 7 {
    } else {
        if i == 0 {
        } else {
        }
    }
}

/// Nothing but the documented table: under the baked-in rules alone (no
/// user rules, any allowlist), every match is a documented target dir of a
/// documented rule, present under a directory that holds one of that
/// rule's documented markers.
pub proof fn lemma_baked_in_matches_documented(
    allow: Option<Seq<Seq<char>>>,
    dir: Seq<char>,
    files: Seq<Seq<char>>,
    dirs: Seq<Seq<char>>,
    k: int,
)
    requires
        0 <= k < dir_matches(dir, merged(Seq::<RuleView>::empty(), default_rule_views(), allow), files, dirs).len(),
    ensures
        exists|marker: Seq<char>, target: Seq<char>|
            #[trigger] baked_in_entry(
                dir_matches(dir, merged(Seq::<RuleView>::empty(), default_rule_views(), allow), files, dirs)[k].rule,
                marker,
                target,
            ) && files.contains(join(dir, marker)) && dir_matches(
                dir,
                merged(Seq::<RuleView>::empty(), default_rule_views(), allow),
                files,
                dirs,
            )[k].path == join(dir, target) && dirs.contains(join(dir, target)),
{
    let d = default_rule_views();
    let user = Seq::<RuleView>::empty();
    let m = merged(user, d, allow);
    let out = dir_matches(dir, m, files, dirs);
    lemma_merge_user_rules_win(user, d, allow);
    lemma_matches_are_rule_targets(dir, m, files, dirs, k);
    let (i, t) = choose|i: int, t: int|
        0 <= i < m.len() && 0 <= t < m[i].targets.len() && (exists|mi: int|
            0 <= mi < m[i].markers.len() && files.contains(join(dir, #[trigger] m[i].markers[mi])))
            && #[trigger] out[k] == (MatchView { path: join(dir, m[i].targets[t]), rule: m[i].name })
            && dirs.contains(join(dir, #[trigger] m[i].targets[t]));
    let mi = choose|mi: int| 0 <= mi < m[i].markers.len() && files.contains(join(dir, #[trigger] m[i].markers[mi]));
    let j = choose|j: int| 0 <= j < d.len() && #[trigger] m[i] == d[j];
    lemma_default_documented(j, mi, t);
    assert(baked_in_entry(out[k].rule, d[j].markers[mi], d[j].targets[t]));
}

/// The nine documented baked-in rules, in their documented order; `go`
/// fires on `go.mod` and excludes nothing, its build cache being global.
pub proof fn lemma_baked_in_rule_names()
    ensures
        Seq::new(default_rule_views().len(), |i: int| default_rule_views()[i].name) == seq![
            "rust"@,
            "node"@,
            "python"@,
            "go"@,
            "swiftpm"@,
            "gradle"@,
            "maven"@,
            "terraform"@,
            "terragrunt"@,
        ],
        exists|j: int|
            0 <= j < default_rule_views().len() && (#[trigger] default_rule_views()[j]).name == "go"@
                && default_rule_views()[j].markers == seq!["go.mod"@]
                && default_rule_views()[j].targets.len() == 0,
{
    let d = default_rule_views();
    assert(d[3].name == "go"@);
    assert(Seq::new(d.len(), |i: int| d[i].name) =~= seq![
        "rust"@,
        "node"@,
        "python"@,
        "go"@,
        "swiftpm"@,
        "gradle"@,
        "maven"@,
        "terraform"@,
        "terragrunt"@,
    ]);
}

} // verus!
