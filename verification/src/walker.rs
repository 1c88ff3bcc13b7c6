//! The walk's pruning rule: which entries the directory walk yields and
//! descends into.

use vstd::prelude::*;
use crate::paths::{components, path_eq, same_path};
use crate::text::{chars_of, strs};

verus! {

/// Whether `path` names the same path as one of `ignore`.
pub open spec fn ignored(path: Seq<char>, ignore: Seq<Seq<char>>) -> bool {
    exists|i: int| 0 <= i < ignore.len() && same_path(path, #[trigger] ignore[i])
}

/// Whether the walk keeps an entry: an ignored path is neither yielded nor
/// descended into, and neither is an entry below the root whose name is one
/// of `prune_names` (a target dir's subtree). `file_name` is `None` when the
/// name is not valid Unicode, which is never pruned.
pub open spec fn admits(
    path: Seq<char>,
    depth: nat,
    file_name: Option<Seq<char>>,
    prune_names: Seq<Seq<char>>,
    ignore: Seq<Seq<char>>,
) -> bool {
    &&& !ignored(path, ignore)
    &&& !(depth > 0 && (file_name matches Some(n) && prune_names.contains(n)))
}

fn is_ignored(path: &str, ignore: &Vec<String>) -> (b: bool)
    ensures
        b == ignored(path@, strs(ignore@)),
{
    let mut i: usize = 0;
    while i < ignore.len()
        invariant
            0 <= i <= ignore.len(),
            forall|k: int| 0 <= k < i ==> !same_path(path@, #[trigger] strs(ignore@)[k]),
        decreases ignore.len() - i,
    {
        if path_eq(path, ignore[i].as_str()) {
            assert(strs(ignore@)[i as int] == ignore@[i as int]@);
            return true;
        }
        i = i + 1;
    }
    false
}

fn name_listed(name: &str, names: &Vec<String>) -> (b: bool)
    ensures
        b == strs(names@).contains(name@),
{
    let n = chars_of(name);
    let mut i: usize = 0;
    while i < names.len()
        invariant
            0 <= i <= names.len(),
            n@ == name@,
            forall|k: int| 0 <= k < i ==> strs(names@)[k] != name@,
        decreases names.len() - i,
    {
        let c = chars_of(names[i].as_str());
        if crate::text::chars_eq(&c, &n) {
            assert(strs(names@)[i as int] == name@);
            return true;
        }
        i = i + 1;
    }
    false
}

/// Whether the walk yields and descends into the entry at `path`, `depth`
/// levels below the root, named `file_name`.
pub fn walk_admits(
    path: &str,
    depth: usize,
    file_name: Option<&str>,
    prune_names: &Vec<String>,
    ignore: &Vec<String>,
) -> (b: bool)
    ensures
        b == admits(
            path@,
            depth as nat,
            match file_name {
                Some(n) => Some(n@),
                None => None,
            },
            strs(prune_names@),
            strs(ignore@),
        ),
{
    if is_ignored(path, ignore) {
        return false;
    }
    if depth > 0 {
        match file_name {
            Some(name) => {
                if name_listed(name, prune_names) {
                    return false;
                }
            },
            None => {},
        }
    }
    true
}

/// Pruning below the root: at every depth of one or more, an entry whose
/// name is one of the target names is neither yielded nor descended into.
pub proof fn lemma_walk_prunes_targets_below_root(
    path: Seq<char>,
    depth: nat,
    name: Seq<char>,
    prune_names: Seq<Seq<char>>,
    ignore: Seq<Seq<char>>,
    i: int,
)
    requires
        depth >= 1,
        0 <= i < prune_names.len(),
        prune_names[i] == name,
    ensures
        !admits(path, depth, Some(name), prune_names, ignore),
{
    assert(prune_names.contains(name));
}

/// An ignored path (one with the same components as an `ignore` entry) is
/// never walked, at any depth and whatever its name.
pub proof fn lemma_walk_skips_ignored(
    path: Seq<char>,
    depth: nat,
    file_name: Option<Seq<char>>,
    prune_names: Seq<Seq<char>>,
    ignore: Seq<Seq<char>>,
    i: int,
)
    requires
        0 <= i < ignore.len(),
        components(path) == components(ignore[i]),
    ensures
        !admits(path, depth, file_name, prune_names, ignore),
{
}

/// Everything else is walked: the root itself whatever its name, and an
/// entry below it whose name is no target name (or is not valid Unicode),
/// as long as no `ignore` entry names the same path.
pub proof fn lemma_walk_keeps_the_rest(
    path: Seq<char>,
    depth: nat,
    file_name: Option<Seq<char>>,
    prune_names: Seq<Seq<char>>,
    ignore: Seq<Seq<char>>,
)
    requires
        forall|i: int| 0 <= i < ignore.len() ==> components(path) != components(#[trigger] ignore[i]),
        depth == 0 || file_name is None || (forall|i: int|
            0 <= i < prune_names.len() ==> #[trigger] prune_names[i] != file_name->0),
    ensures
        admits(path, depth, file_name, prune_names, ignore),
{
}

} // verus!
