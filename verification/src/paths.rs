//! Unix paths held as strings: joining, component-wise comparison, and the
//! XDG base-directory resolution. `$XDG_CONFIG_HOME` / `$XDG_STATE_HOME` are
//! honoured when set to an absolute path, else `~/.config` and
//! `~/.local/state` are used.

use vstd::prelude::*;
use crate::text::{chars_of, push_str};

verus! {

/// Whether `p` is absolute: on Unix, whether it starts at the root.
pub open spec fn is_absolute(p: Seq<char>) -> bool {
    p.len() > 0 && p[0] == '/'
}

/// `base` joined with `rel` (`Path::join`): an absolute `rel` replaces
/// `base`; otherwise a separator is put between them unless `base` is empty
/// or already ends with one.
pub open spec fn join(base: Seq<char>, rel: Seq<char>) -> Seq<char> {
    if is_absolute(rel) {
        rel
    } else if base.len() == 0 || base.last() == '/' {
        base + rel
    } else {
        base.push('/') + rel
    }
}

/// Joins `rel` onto `base`.
pub fn join_path(base: &str, rel: &str) -> (r: String)
    ensures
        r@ == join(base@, rel@),
{
    let b = chars_of(base);
    let r = chars_of(rel);
    let mut out = String::new();
    if r.len() > 0 && r[0] == '/' {
        push_str(&mut out, rel);
        assert(out@ =~= rel@);
        return out;
    }
    push_str(&mut out, base);
    if b.len() > 0 && b[b.len() - 1] != '/' {
        push_str(&mut out, "/");
        proof {
            reveal_strlit("/");
        }
        assert(out@ =~= base@.push('/'));
    }
    push_str(&mut out, rel);
    assert(out@ =~= join(base@, rel@));
    out
}

/// Whether the string `p` is an absolute path.
pub fn path_is_absolute(p: &str) -> (b: bool)
    ensures
        b == is_absolute(p@),
{
    let v = chars_of(p);
    v.len() > 0 && v[0] == '/'
}

/// The pieces of `s` between `/` separators, empty ones included:
/// `"/a//b"` gives `["", "a", "", "b"]`, and `""` gives `[""]`.
pub open spec fn split_slash(s: Seq<char>) -> Seq<Seq<char>>
    decreases s.len(),
{
    if s.len() == 0 {
        seq![Seq::<char>::empty()]
    } else {
        let ps = split_slash(s.drop_last());
        if s.last() == '/' {
            ps.push(Seq::<char>::empty())
        } else {
            ps.update(ps.len() - 1, ps.last().push(s.last()))
        }
    }
}

/// A piece that names a directory entry: neither empty nor `.`.
pub open spec fn is_normal(p: Seq<char>) -> bool {
    p.len() > 0 && p != seq!['.']
}

/// The normal pieces among `ps`, in order.
pub open spec fn normals(ps: Seq<Seq<char>>) -> Seq<Seq<char>>
    decreases ps.len(),
{
    if ps.len() == 0 {
        Seq::<Seq<char>>::empty()
    } else if is_normal(ps.last()) {
        normals(ps.drop_last()).push(ps.last())
    } else {
        normals(ps.drop_last())
    }
}

/// The components of a Unix path (`Path::components`): the root, written
/// `"/"`, when the path starts with a separator; a leading `.`, when a relative
/// path starts with one; then every normal piece. Repeated separators, `.`
/// pieces elsewhere and trailing separators are not components.
pub open spec fn components(s: Seq<char>) -> Seq<Seq<char>> {
    let head = if is_absolute(s) {
        seq![seq!['/']]
    } else if split_slash(s)[0] == seq!['.'] {
        seq![seq!['.']]
    } else {
        Seq::<Seq<char>>::empty()
    };
    head + normals(split_slash(s))
}

/// Whether `base` is a prefix of `path`, whole components only
/// (`Path::starts_with`).
pub open spec fn starts_with(path: Seq<char>, base: Seq<char>) -> bool {
    let p = components(path);
    let b = components(base);
    b.len() <= p.len() && p.take(b.len() as int) == b
}

/// Whether two strings name the same path, component by component
/// (`PathBuf`'s `==`).
pub open spec fn same_path(a: Seq<char>, b: Seq<char>) -> bool {
    components(a) == components(b)
}

/// The views of a vector of character vectors.
pub open spec fn views(v: Seq<Vec<char>>) -> Seq<Seq<char>> {
    Seq::new(v.len(), |i: int| v[i]@)
}

fn is_dot(p: &Vec<char>) -> (b: bool)
    ensures
        b == (p@ == seq!['.']),
{
    if p.len() == 1 && p[0] == '.' {
        assert(p@ =~= seq!['.']);
        true
    } else {
        proof {
            if p@ == seq!['.'] {
                assert(p@[0] == seq!['.'][0]);
            }
        }
        false
    }
}

/// The components of the path `p`.
pub fn path_components(p: &str) -> (r: Vec<Vec<char>>)
    ensures
        views(r@) == components(p@),
{
    let v = chars_of(p);
    let mut done: Vec<Vec<char>> = Vec::new();
    let mut cur: Vec<char> = Vec::new();
    let mut first: Vec<char> = Vec::new();
    let mut seen_slash = false;
    let mut i: usize = 0;
    assert(v@.take(0) =~= Seq::<char>::empty());
    while i < v.len()
        invariant
            0 <= i <= v.len(),
            v@ == p@,
            split_slash(v@.take(i as int)).len() >= 1,
            cur@ == split_slash(v@.take(i as int)).last(),
            first@ == split_slash(v@.take(i as int))[0],
            !seen_slash ==> split_slash(v@.take(i as int)).len() == 1,
            seen_slash ==> split_slash(v@.take(i as int)).len() >= 2,
            views(done@) == normals(split_slash(v@.take(i as int)).drop_last()),
        decreases v.len() - i,
    {
        let c = v[i];
        let ghost before = v@.take(i as int);
        let ghost ps = split_slash(before);
        assert(v@.take(i as int + 1).drop_last() =~= before);
        assert(v@.take(i as int + 1).last() == c);
        if c == '/' {
            let ghost old_done = views(done@);
            if cur.len() > 0 && !is_dot(&cur) {
                let moved = cur;
                done.push(moved);
                assert(views(done@) =~= old_done.push(ps.last()));
            }
            assert(ps.push(Seq::<char>::empty()).drop_last() =~= ps);
            cur = Vec::new();
            seen_slash = true;
        } else {
            cur.push(c);
            if !seen_slash {
                first.push(c);
            }
            assert(ps.update(ps.len() - 1, ps.last().push(c)).drop_last() =~= ps.drop_last());
        }
        i = i + 1;
    }
    assert(v@.take(v.len() as int) =~= v@);
    let ghost ps = split_slash(v@);
    let ghost mid = views(done@);
    if cur.len() > 0 && !is_dot(&cur) {
        done.push(cur);
        assert(views(done@) =~= mid.push(ps.last()));
    }
    assert(views(done@) == normals(ps));
    let mut out: Vec<Vec<char>> = Vec::new();
    if v.len() > 0 && v[0] == '/' {
        let mut root: Vec<char> = Vec::new();
        root.push('/');
        out.push(root);
        assert(views(out@) =~= seq![seq!['/']]);
    } else if is_dot(&first) {
        let mut dot: Vec<char> = Vec::new();
        dot.push('.');
        out.push(dot);
        assert(views(out@) =~= seq![seq!['.']]);
    } else {
        assert(views(out@) =~= Seq::<Seq<char>>::empty());
    }
    let ghost head = views(out@);
    let ghost tail = views(done@);
    out.append(&mut done);
    assert(views(out@) =~= head + tail);
    out
}

fn components_prefix(p: &Vec<Vec<char>>, b: &Vec<Vec<char>>) -> (r: bool)
    ensures
        r == (views(b@).len() <= views(p@).len() && views(p@).take(views(b@).len() as int)
            == views(b@)),
{
    if b.len() > p.len() {
        return false;
    }
    let mut i: usize = 0;
    while i < b.len()
        invariant
            b.len() <= p.len(),
            0 <= i <= b.len(),
            forall|k: int| 0 <= k < i ==> p@[k]@ == b@[k]@,
        decreases b.len() - i,
    {
        if !crate::text::chars_eq(&p[i], &b[i]) {
            assert(views(p@).take(b.len() as int)[i as int] != views(b@)[i as int]);
            return false;
        }
        i = i + 1;
    }
    assert(views(p@).take(b.len() as int) =~= views(b@));
    true
}

/// Whether `path` lies under `base`, comparing whole components.
pub fn path_starts_with(path: &str, base: &str) -> (r: bool)
    ensures
        r == starts_with(path@, base@),
{
    let p = path_components(path);
    let b = path_components(base);
    components_prefix(&p, &b)
}

/// Whether `a` and `b` name the same path, component by component.
pub fn path_eq(a: &str, b: &str) -> (r: bool)
    ensures
        r == same_path(a@, b@),
{
    let p = path_components(a);
    let q = path_components(b);
    if p.len() != q.len() {
        proof {
            if components(a@) == components(b@) {
                assert(views(p@).len() == views(q@).len());
            }
        }
        return false;
    }
    let r = components_prefix(&p, &q);
    proof {
        assert(views(p@).take(views(q@).len() as int) =~= views(p@));
    }
    r
}

/// The XDG rule: an absolute environment value is used verbatim; a missing,
/// empty or relative one is ignored in favour of `home` joined with
/// `fallback`.
pub open spec fn resolved(env_value: Option<Seq<char>>, home: Seq<char>, fallback: Seq<char>) -> Seq<
    char,
> {
    match env_value {
        Some(v) if is_absolute(v) => v,
        _ => join(home, fallback),
    }
}

/// Resolves an XDG base directory: `env_value` when it is an absolute path,
/// else `home` joined with `fallback`. An empty `home` stands for an unknown
/// home directory.
pub fn resolve(env_value: Option<&str>, home: &str, fallback: &str) -> (r: String)
    ensures
        r@ == resolved(
            match env_value {
                Some(v) => Some(v@),
                None => None,
            },
            home@,
            fallback@,
        ),
{
    match env_value {
        Some(v) => {
            if path_is_absolute(v) {
                let mut out = String::new();
                push_str(&mut out, v);
                assert(out@ =~= v@);
                return out;
            }
        },
        None => {},
    }
    join_path(home, fallback)
}

/// Base dir for config: `$XDG_CONFIG_HOME` (given as `xdg_config_home`), else
/// `~/.config`.
pub fn config_home(xdg_config_home: Option<&str>, home: &str) -> (r: String)
    ensures
        r@ == resolved(
            match xdg_config_home {
                Some(v) => Some(v@),
                None => None,
            },
            home@,
            ".config"@,
        ),
{
    resolve(xdg_config_home, home, ".config")
}

/// Base dir for state (logs, run history): `$XDG_STATE_HOME` (given as
/// `xdg_state_home`), else `~/.local/state`.
pub fn state_home(xdg_state_home: Option<&str>, home: &str) -> (r: String)
    ensures
        r@ == resolved(
            match xdg_state_home {
                Some(v) => Some(v@),
                None => None,
            },
            home@,
            ".local/state"@,
        ),
{
    resolve(xdg_state_home, home, ".local/state")
}

} // verus!
