//! The configuration model: roots to scan, rules that recognise build
//! directories, decay settings and ignored paths, with the defaults that
//! apply when a key is left out and the merge with the baked-in rules.

use vstd::prelude::*;
use crate::defaults::{default_rules, default_rule_views};
use crate::paths::{join, join_path};
use crate::text::{copy_strings, owned, strings_contain, strs};

verus! {

/// The default walk depth below a root.
pub fn default_depth() -> (d: usize)
    ensures
        d == 8,
{
    8
}

/// The default age, in days, after which an excluded dir may decay.
pub fn default_max_age_days() -> (d: u64)
    ensures
        d == 30,
{
    30
}

/// The default size floor, in MiB, below which a dir never decays.
pub fn default_min_size_mb() -> (d: u64)
    ensures
        d == 100,
{
    100
}

/// A directory tree to scan, down to `max_depth` levels.
pub struct Root {
    pub path: String,
    pub max_depth: usize,
}

/// A rule: a directory holding one of `markers` has its `targets`
/// subdirectories excluded.
pub struct Rule {
    pub name: String,
    pub markers: Vec<String>,
    pub targets: Vec<String>,
}

/// The mathematical content of a [`Rule`].
pub struct RuleView {
    pub name: Seq<char>,
    pub markers: Seq<Seq<char>>,
    pub targets: Seq<Seq<char>>,
}

impl View for Rule {
    type V = RuleView;

    open spec fn view(&self) -> RuleView {
        RuleView { name: self.name@, markers: strs(self.markers@), targets: strs(self.targets@) }
    }
}

/// The views of a sequence of rules.
pub open spec fn rule_views(rules: Seq<Rule>) -> Seq<RuleView> {
    Seq::new(rules.len(), |i: int| rules[i]@)
}

/// Settings for reclaiming stale excluded dirs.
pub struct DecayConfig {
    pub max_age_days: u64,
    pub min_size_mb: u64,
    pub auto_clean: bool,
    pub exclude_rules: Vec<String>,
    pub exclude_paths: Vec<String>,
    pub json_output: Option<String>,
}

impl Default for DecayConfig {
    fn default() -> (d: DecayConfig)
        ensures
            d.max_age_days == 30,
            d.min_size_mb == 100,
            !d.auto_clean,
            d.exclude_rules@.len() == 0,
            d.exclude_paths@.len() == 0,
            d.json_output is None,
    {
        DecayConfig {
            max_age_days: default_max_age_days(),
            min_size_mb: default_min_size_mb(),
            auto_clean: false,
            exclude_rules: Vec::new(),
            exclude_paths: Vec::new(),
            json_output: None,
        }
    }
}

/// The whole configuration. `defaults`, when present, lists the baked-in
/// rules to keep; absent, all of them apply.
pub struct Config {
    pub roots: Vec<Root>,
    pub rules: Vec<Rule>,
    pub decay: DecayConfig,
    pub ignore: Vec<String>,
    pub defaults: Option<Vec<String>>,
}

/// Why a configuration cannot be used for a walk.
pub enum ConfigError {
    /// No roots are configured.
    NoRoots,
}

impl ConfigError {
    /// What the command reports for this error.
    pub fn message(&self) -> (m: String)
        ensures
            m@ == "no roots configured. Run `tmtidy init` to create ~/.config/tmtidy/config.yaml, then set a `roots:` list."@,
    {
        match self {
            ConfigError::NoRoots => crate::text::owned(
                "no roots configured. Run `tmtidy init` to create ~/.config/tmtidy/config.yaml, then set a `roots:` list.",
            ),
        }
    }
}

/// Whether the baked-in rule `name` is selected by the allowlist `allow`.
pub open spec fn allowed(allow: Option<Seq<Seq<char>>>, name: Seq<char>) -> bool {
    match allow {
        None => true,
        Some(names) => names.contains(name),
    }
}

/// Whether some rule in `rules` is called `name`.
pub open spec fn has_rule_named(rules: Seq<RuleView>, name: Seq<char>) -> bool {
    exists|i: int| 0 <= i < rules.len() && (#[trigger] rules[i]).name == name
}

/// `rules` followed by each selected default, in order, whose name no
/// earlier rule has: user rules win over defaults of the same name.
pub open spec fn merged(rules: Seq<RuleView>, defaults: Seq<RuleView>, allow: Option<Seq<Seq<char>>>) -> Seq<
    RuleView,
>
    decreases defaults.len(),
{
    if defaults.len() == 0 {
        rules
    } else {
        let prev = merged(rules, defaults.drop_last(), allow);
        let d = defaults.last();
        if allowed(allow, d.name) && !has_rule_named(prev, d.name) {
            prev.push(d)
        } else {
            prev
        }
    }
}

/// The default config file: `tmtidy/config.yaml` under the config dir
/// `config_home` (`$XDG_CONFIG_HOME` when absolute, else `~/.config`).
pub fn default_config_path(config_home: &str) -> (p: String)
    ensures
        p@ == join(config_home@, "tmtidy/config.yaml"@),
{
    join_path(config_home, "tmtidy/config.yaml")
}

/// Tilde expansion of a configured path: `~` alone or a leading `~/`
/// stands for the home directory `home`; anything else, or an unknown home,
/// leaves the path as it is.
pub open spec fn tilde_expanded(s: Seq<char>, home: Option<Seq<char>>) -> Seq<char> {
    if s.len() > 0 && s[0] == '~' && (s.len() == 1 || s[1] == '/') {
        match home {
            Some(h) => h + s.drop_first(),
            None => s,
        }
    } else {
        s
    }
}

/// Whether `s` starts with `~\`, which `shellexpand` also expands on
/// Windows only.
pub open spec fn windows_tilde(s: Seq<char>) -> bool {
    s.len() > 1 && s[0] == '~' && s[1] == '\\'
}

/// What expanding `s` against `home` may give: a path that starts with
/// `~\` comes back unchanged or, with a known home, as the home followed
/// by the rest (which of the two depends on the platform built for); any
/// other path gives [`tilde_expanded`].
pub open spec fn tilde_outcome(s: Seq<char>, home: Option<Seq<char>>, r: Seq<char>) -> bool {
    if windows_tilde(s) {
        r == s || (home matches Some(h) && r == h + s.drop_first())
    } else {
        r == tilde_expanded(s, home)
    }
}

/// The view of an optional string.
pub open spec fn opt_view(o: Option<&str>) -> Option<Seq<char>> {
    match o {
        Some(s) => Some(s@),
        None => None,
    }
}

/// Calls `shellexpand::tilde_with_context(s, || home)`. Claimed: a path that
/// is `~` or starts with `~/` has that `~` replaced by `home` when `home` is
/// known; a path that starts with `~\` comes back unchanged, or, when built
/// for Windows and `home` is known, with that `~` replaced by `home`; every
/// other path comes back unchanged.
#[verifier::external_body]
fn expand_tilde(s: &str, home: Option<&str>) -> (r: String)
    ensures
        tilde_outcome(s@, opt_view(home), r@),
{
    shellexpand::tilde_with_context(s, || home).into_owned()
}

/// Tilde-expands every path in `v`.
fn expand_all(v: &Vec<String>, home: Option<&str>) -> (r: Vec<String>)
    ensures
        r@.len() == v@.len(),
        forall|i: int| 0 <= i < v@.len() ==> tilde_outcome(v@[i]@, opt_view(home), (#[trigger] r@[i])@),
{
    let mut r: Vec<String> = Vec::new();
    let mut i: usize = 0;
    while i < v.len()
        invariant
            0 <= i <= v.len(),
            r@.len() == i,
            forall|k: int| 0 <= k < i ==> tilde_outcome(v@[k]@, opt_view(home), (#[trigger] r@[k])@),
        decreases v.len() - i,
    {
        r.push(expand_tilde(v[i].as_str(), home));
        i = i + 1;
    }
    r
}

/// The merge of user rules with the baked-in ones: the user's rules come
/// first, unchanged; every rule added after them is a selected default whose
/// name no user rule has (a user rule replaces the default of its name
/// entirely); every selected default's name is defined afterwards; and an
/// empty allowlist keeps the user's rules alone.
pub proof fn lemma_merge_user_rules_win(
    user: Seq<RuleView>,
    defaults: Seq<RuleView>,
    allow: Option<Seq<Seq<char>>>,
)
    ensures
        merged(user, defaults, allow).len() >= user.len(),
        merged(user, defaults, allow).take(user.len() as int) == user,
        forall|k: int|
            user.len() <= k < merged(user, defaults, allow).len() ==> {
                &&& exists|j: int|
                    0 <= j < defaults.len() && #[trigger] merged(user, defaults, allow)[k]
                        == defaults[j]
                &&& allowed(allow, merged(user, defaults, allow)[k].name)
                &&& !has_rule_named(user, merged(user, defaults, allow)[k].name)
            },
        forall|j: int|
            0 <= j < defaults.len() && allowed(allow, #[trigger] defaults[j].name) ==> has_rule_named(
                merged(user, defaults, allow),
                defaults[j].name,
            ),
        allow == Some(Seq::<Seq<char>>::empty()) ==> merged(user, defaults, allow) == user,
    decreases defaults.len(),
{
    if defaults.len() == 0 {
        assert(user.take(user.len() as int) =~= user);
    } else {
        let init = defaults.drop_last();
        let d = defaults.last();
        lemma_merge_user_rules_win(user, init, allow);
        let prev = merged(user, init, allow);
        let m = merged(user, defaults, allow);
        if allowed(allow, d.name) && !has_rule_named(prev, d.name) {
            assert(m == prev.push(d));
            assert(m.take(user.len() as int) =~= prev.take(user.len() as int));
            assert(!has_rule_named(user, d.name)) by {
                if has_rule_named(user, d.name) {
                    let i = choose|i: int| 0 <= i < user.len() && (#[trigger] user[i]).name == d.name;
                    assert(prev[i] == prev.take(user.len() as int)[i]);
                }
            }
            assert(defaults[defaults.len() - 1] == d);
            assert forall|k: int| user.len() <= k < m.len() implies {
                &&& exists|j: int| 0 <= j < defaults.len() && #[trigger] m[k] == defaults[j]
                &&& allowed(allow, m[k].name)
                &&& !has_rule_named(user, m[k].name)
            } by {
                if k < prev.len() {
                    assert(m[k] == prev[k]);
                    let j = choose|j: int| 0 <= j < init.len() && #[trigger] prev[k] == init[j];
                    assert(init[j] == defaults[j]);
                }
            }
            assert forall|j: int| 0 <= j < defaults.len() && allowed(allow, #[trigger] defaults[j].name)
                implies has_rule_named(m, defaults[j].name) by {
                if j < init.len() {
                    assert(init[j] == defaults[j]);
                    let i = choose|i: int| 0 <= i < prev.len() && (#[trigger] prev[i]).name == init[j].name;
                    assert(m[i] == prev[i]);
                } else {
                    assert(m[prev.len() as int] == d);
                }
            }
        } else {
            assert forall|k: int| user.len() <= k < m.len() implies {
                &&& exists|j: int| 0 <= j < defaults.len() && #[trigger] m[k] == defaults[j]
                &&& allowed(allow, m[k].name)
                &&& !has_rule_named(user, m[k].name)
            } by {
                let j = choose|j: int| 0 <= j < init.len() && #[trigger] prev[k] == init[j];
                assert(init[j] == defaults[j]);
            }
            assert forall|j: int| 0 <= j < defaults.len() && allowed(allow, #[trigger] defaults[j].name)
                implies has_rule_named(m, defaults[j].name) by {
                if j < init.len() {
                    assert(init[j] == defaults[j]);
                } else {
                    assert(defaults[j] == d);
                }
            }
        }
    }
}

impl Config {
    /// The effective configuration from the parsed one: `~` expanded in
    /// every configured path against `home`, and the selected baked-in rules
    /// merged in. Everything else is kept.
    pub fn from_parsed(parsed: Config, home: Option<&str>) -> (c: Config)
        ensures
            c.roots@.len() == parsed.roots@.len(),
            forall|i: int|
                0 <= i < parsed.roots@.len() ==> (#[trigger] c.roots@[i]).max_depth
                    == parsed.roots@[i].max_depth && tilde_outcome(
                    parsed.roots@[i].path@,
                    opt_view(home),
                    c.roots@[i].path@,
                ),
            c.ignore@.len() == parsed.ignore@.len(),
            forall|i: int|
                0 <= i < parsed.ignore@.len() ==> tilde_outcome(
                    parsed.ignore@[i]@,
                    opt_view(home),
                    (#[trigger] c.ignore@[i])@,
                ),
            c.decay.exclude_paths@.len() == parsed.decay.exclude_paths@.len(),
            forall|i: int|
                0 <= i < parsed.decay.exclude_paths@.len() ==> tilde_outcome(
                    parsed.decay.exclude_paths@[i]@,
                    opt_view(home),
                    (#[trigger] c.decay.exclude_paths@[i])@,
                ),
            parsed.decay.json_output is None ==> c.decay.json_output is None,
            parsed.decay.json_output matches Some(j) ==> (c.decay.json_output matches Some(k)
                && tilde_outcome(j@, opt_view(home), k@)),
            c.decay.max_age_days == parsed.decay.max_age_days,
            c.decay.min_size_mb == parsed.decay.min_size_mb,
            c.decay.auto_clean == parsed.decay.auto_clean,
            c.decay.exclude_rules == parsed.decay.exclude_rules,
            c.defaults == parsed.defaults,
            rule_views(c.rules@) == merged(
                rule_views(parsed.rules@),
                default_rule_views(),
                parsed.allow_view(),
            ),
    {
        let Config { roots, rules, decay, ignore, defaults } = parsed;
        let mut new_roots: Vec<Root> = Vec::new();
        let mut i: usize = 0;
        while i < roots.len()
            invariant
                0 <= i <= roots.len(),
                roots == parsed.roots,
                new_roots@.len() == i,
                forall|k: int|
                    0 <= k < i ==> (#[trigger] new_roots@[k]).max_depth == roots@[k].max_depth
                        && tilde_outcome(roots@[k].path@, opt_view(home), new_roots@[k].path@),
            decreases roots.len() - i,
        {
            let path = expand_tilde(roots[i].path.as_str(), home);
            new_roots.push(Root { path, max_depth: roots[i].max_depth });
            i = i + 1;
        }
        let new_ignore = expand_all(&ignore, home);
        let new_excluded = expand_all(&decay.exclude_paths, home);
        let json_output = match &decay.json_output {
            Some(j) => Some(expand_tilde(j.as_str(), home)),
            None => None,
        };
        let DecayConfig { max_age_days, min_size_mb, auto_clean, exclude_rules, exclude_paths: _, json_output: _ } = decay;
        let mut cfg = Config {
            roots: new_roots,
            rules,
            decay: DecayConfig {
                max_age_days,
                min_size_mb,
                auto_clean,
                exclude_rules,
                exclude_paths: new_excluded,
                json_output,
            },
            ignore: new_ignore,
            defaults,
        };
        cfg.merge_default_rules();
        cfg
    }

    /// The view of the allowlist of baked-in rules.
    pub open spec fn allow_view(&self) -> Option<Seq<Seq<char>>> {
        match self.defaults {
            Some(v) => Some(strs(v@)),
            None => None,
        }
    }

    /// An empty configuration: no roots, no rules, default decay settings.
    pub fn empty() -> (c: Config)
        ensures
            c.roots@.len() == 0,
            c.rules@.len() == 0,
            c.ignore@.len() == 0,
            c.defaults is None,
            c.decay.max_age_days == 30,
            c.decay.min_size_mb == 100,
            !c.decay.auto_clean,
            c.decay.exclude_rules@.len() == 0,
            c.decay.exclude_paths@.len() == 0,
            c.decay.json_output is None,
    {
        Config {
            roots: Vec::new(),
            rules: Vec::new(),
            decay: DecayConfig::default(),
            ignore: Vec::new(),
            defaults: None,
        }
    }

    /// Adds the selected baked-in rules for any name the user did not define.
    /// User rules win; nothing else changes.
    pub fn merge_default_rules(&mut self)
        ensures
            rule_views(final(self).rules@) == merged(
                rule_views(old(self).rules@),
                default_rule_views(),
                old(self).allow_view(),
            ),
            final(self).roots == old(self).roots,
            final(self).decay == old(self).decay,
            final(self).ignore == old(self).ignore,
            final(self).defaults == old(self).defaults,
    {
        let defaults = default_rules();
        let ghost d = rule_views(defaults@);
        let ghost start = rule_views(self.rules@);
        let mut i: usize = 0;
        assert(d.take(0) =~= Seq::<RuleView>::empty());
        while i < defaults.len()
            invariant
                0 <= i <= defaults.len(),
                d == rule_views(defaults@),
                d == default_rule_views(),
                rule_views(self.rules@) == merged(start, d.take(i as int), self.allow_view()),
                self.roots == old(self).roots,
                self.decay == old(self).decay,
                self.ignore == old(self).ignore,
                self.defaults == old(self).defaults,
                start == rule_views(old(self).rules@),
            decreases defaults.len() - i,
        {
            let r = &defaults[i];
            assert(d.take(i as int + 1).drop_last() =~= d.take(i as int));
            assert(d.take(i as int + 1).last() == r@);
            let allowed_here = match &self.defaults {
                None => true,
                Some(names) => strings_contain(names, &r.name),
            };
            let present = self.has_rule(&r.name);
            if allowed_here && !present {
                let copy = Rule {
                    name: r.name.clone(),
                    markers: copy_strings(&r.markers),
                    targets: copy_strings(&r.targets),
                };
                let ghost before = self.rules@;
                self.rules.push(copy);
                assert(rule_views(self.rules@) =~= rule_views(before).push(r@));
            }
            i = i + 1;
        }
        assert(d.take(defaults.len() as int) =~= d);
    }

    /// Whether some rule is called `name`.
    pub fn has_rule(&self, name: &String) -> (b: bool)
        ensures
            b == has_rule_named(rule_views(self.rules@), name@),
    {
        let mut i: usize = 0;
        while i < self.rules.len()
            invariant
                0 <= i <= self.rules.len(),
                forall|k: int| 0 <= k < i ==> (#[trigger] self.rules@[k]).name@ != name@,
            decreases self.rules.len() - i,
        {
            if self.rules[i].name == *name {
                assert(rule_views(self.rules@)[i as int].name == name@);
                return true;
            }
            i = i + 1;
        }
        assert forall|k: int| 0 <= k < rule_views(self.rules@).len() implies (#[trigger] rule_views(
            self.rules@,
        )[k]).name != name@ by {
            assert(rule_views(self.rules@)[k] == self.rules@[k]@);
        }
        false
    }

    /// Union of every target dir name across all rules: what prunes the
    /// walk. Each name occurs once.
    pub fn target_names(&self) -> (names: Vec<String>)
        ensures
            strs(names@).no_duplicates(),
            forall|t: Seq<char>|
                strs(names@).contains(t) <==> exists|i: int, j: int|
                    0 <= i < self.rules@.len() && 0 <= j < self.rules@[i].targets@.len()
                        && (#[trigger] self.rules@[i].targets@[j])@ == t,
    {
        let mut names: Vec<String> = Vec::new();
        let mut i: usize = 0;
        while i < self.rules.len()
            invariant
                0 <= i <= self.rules.len(),
                strs(names@).no_duplicates(),
                forall|t: Seq<char>|
                    strs(names@).contains(t) <==> exists|a: int, b: int|
                        0 <= a < i && 0 <= b < self.rules@[a].targets@.len() && (
                        #[trigger] self.rules@[a].targets@[b])@ == t,
            decreases self.rules.len() - i,
        {
            let targets = &self.rules[i].targets;
            let mut j: usize = 0;
            while j < targets.len()
                invariant
                    0 <= i < self.rules.len(),
                    targets == &self.rules@[i as int].targets,
                    0 <= j <= targets.len(),
                    strs(names@).no_duplicates(),
                    forall|t: Seq<char>|
                        strs(names@).contains(t) <==> (exists|a: int, b: int|
                            0 <= a < i && 0 <= b < self.rules@[a].targets@.len() && (
                            #[trigger] self.rules@[a].targets@[b])@ == t) || (exists|b: int|
                            0 <= b < j && (#[trigger] targets@[b])@ == t),
                decreases targets.len() - j,
            {
                let t = &targets[j];
                if !strings_contain(&names, t) {
                    let ghost before = names@;
                    names.push(t.clone());
                    proof {
                        assert(strs(names@) =~= strs(before).push(t@));
                        assert forall|x: Seq<char>|
                            strs(names@).contains(x) <==> (exists|a: int, b: int|
                                0 <= a < i && 0 <= b < self.rules@[a].targets@.len() && (
                                #[trigger] self.rules@[a].targets@[b])@ == x) || (exists|b: int|
                                0 <= b < j + 1 && (#[trigger] targets@[b])@ == x) by {
                            if strs(names@).contains(x) && x != t@ {
                                let k = choose|k: int|
                                    0 <= k < strs(names@).len() && strs(names@)[k] == x;
                                assert(strs(before)[k] == x);
                                assert(strs(before).contains(x));
                            }
                            if x == t@ {
                                assert(strs(names@)[before.len() as int] == x);
                                assert(targets@[j as int]@ == x);
                            }
                            if x != t@ && strs(before).contains(x) {
                                let k = choose|k: int|
                                    0 <= k < strs(before).len() && strs(before)[k] == x;
                                assert(strs(names@)[k] == x);
                            }
                            if (exists|b: int| 0 <= b < j + 1 && (#[trigger] targets@[b])@ == x) {
                                let b = choose|b: int|
                                    0 <= b < j + 1 && (#[trigger] targets@[b])@ == x;
                                if b < j {
                                    assert(strs(before).contains(x));
                                }
                            }
                            if (exists|b: int| 0 <= b < j && (#[trigger] targets@[b])@ == x) {
                                let b = choose|b: int| 0 <= b < j && (#[trigger] targets@[b])@ == x;
                                assert(0 <= b < j + 1 && targets@[b]@ == x);
                            }
                        }
                    }
                } else {
                    proof {
                        assert(strs(names@).contains(t@));
                        assert(t@ == targets@[j as int]@);
                        assert forall|x: Seq<char>| strs(names@).contains(x) implies (exists|a: int, b: int|
                                0 <= a < i && 0 <= b < self.rules@[a].targets@.len() && (
                                #[trigger] self.rules@[a].targets@[b])@ == x) || (exists|b: int|
                                0 <= b < j + 1 && (#[trigger] targets@[b])@ == x) by {
                            if (exists|b: int| 0 <= b < j && (#[trigger] targets@[b])@ == x) {
                                let b = choose|b: int| 0 <= b < j && (#[trigger] targets@[b])@ == x;
                                assert(0 <= b < j + 1 && targets@[b]@ == x);
                            }
                        }
                        assert forall|x: Seq<char>|
                            strs(names@).contains(x) <==> (exists|a: int, b: int|
                                0 <= a < i && 0 <= b < self.rules@[a].targets@.len() && (
                                #[trigger] self.rules@[a].targets@[b])@ == x) || (exists|b: int|
                                0 <= b < j + 1 && (#[trigger] targets@[b])@ == x) by {
                            if (exists|b: int| 0 <= b < j + 1 && (#[trigger] targets@[b])@ == x) {
                                let b = choose|b: int|
                                    0 <= b < j + 1 && (#[trigger] targets@[b])@ == x;
                                if b == j {
                                    assert(x == t@);
                                    assert(strs(names@).contains(x));
                                } else {
                                    assert(exists|b: int| 0 <= b < j && (#[trigger] targets@[b])@ == x);
                                }
                            }
                            if (exists|b: int| 0 <= b < j && (#[trigger] targets@[b])@ == x) {
                                let b = choose|b: int| 0 <= b < j && (#[trigger] targets@[b])@ == x;
                                assert(0 <= b < j + 1 && targets@[b]@ == x);
                            }
                        }
                    }
                }
                j = j + 1;
            }
            proof {
                assert forall|x: Seq<char>|
                    strs(names@).contains(x) <==> exists|a: int, b: int|
                        0 <= a < i + 1 && 0 <= b < self.rules@[a].targets@.len() && (
                        #[trigger] self.rules@[a].targets@[b])@ == x by {
                    if (exists|b: int| 0 <= b < j && (#[trigger] targets@[b])@ == x) {
                        let b = choose|b: int| 0 <= b < j && (#[trigger] targets@[b])@ == x;
                        assert(self.rules@[i as int].targets@[b]@ == x);
                    }
                    if (exists|a: int, b: int|
                        0 <= a < i + 1 && 0 <= b < self.rules@[a].targets@.len() && (
                        #[trigger] self.rules@[a].targets@[b])@ == x) {
                        let (a, b) = choose|a: int, b: int|
                            0 <= a < i + 1 && 0 <= b < self.rules@[a].targets@.len() && (
                            #[trigger] self.rules@[a].targets@[b])@ == x;
                        if a == i {
                            assert(targets@[b]@ == x);
                        }
                    }
                }
            }
            i = i + 1;
        }
        names
    }

    /// Commands that walk the disk need at least one root.
    pub fn ensure_roots(&self) -> (r: Result<(), ConfigError>)
        ensures
            r is Err <==> self.roots@.len() == 0,
    {
        if self.roots.len() == 0 {
            Err(ConfigError::NoRoots)
        } else {
            Ok(())
        }
    }
}

} // verus!
