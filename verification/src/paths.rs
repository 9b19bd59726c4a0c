//! Paths as the repository and the watcher see them: their components (in
//! the `/`-separated form that git and Unix use), the checks that keep
//! operations inside the working tree, and which changes under `.git` matter.

use vstd::prelude::*;

use crate::order::string_eq;
use crate::text::{concat3, ends_with, has_suffix, push_char};
use crate::types::{BackendError, is_invalid_path};

verus! {

/// One component of a path.
#[derive(Debug)]
pub enum PathComponent {
    /// The leading `/` of an absolute path.
    RootDir,
    /// A leading `.`.
    CurDir,
    /// `..`.
    ParentDir,
    /// Any other name.
    Normal(String),
}

/// A path component as plain values.
pub enum Comp {
    Root,
    Cur,
    Parent,
    Normal(Seq<char>),
}

pub open spec fn comp_view(c: PathComponent) -> Comp {
    match c {
        PathComponent::RootDir => Comp::Root,
        PathComponent::CurDir => Comp::Cur,
        PathComponent::ParentDir => Comp::Parent,
        PathComponent::Normal(s) => Comp::Normal(s@),
    }
}

pub open spec fn comps_view(cs: Seq<PathComponent>) -> Seq<Comp> {
    cs.map_values(|c: PathComponent| comp_view(c))
}

/// The component that one `/`-delimited segment contributes: nothing for an
/// empty segment or for a `.` that is not the first segment.
pub open spec fn segment_comp(seg: Seq<char>, first: bool) -> Seq<Comp> {
    if seg.len() == 0 {
        Seq::empty()
    } else if seg == "."@ {
        if first {
            seq![Comp::Cur]
        } else {
            Seq::empty()
        }
    } else if seg == ".."@ {
        seq![Comp::Parent]
    } else {
        seq![Comp::Normal(seg)]
    }
}

/// Components of the rest `s` of a path, where `cur` is the segment read so
/// far, `first` whether it is the path's first segment, and `out` the
/// components found before it.
pub open spec fn comps_from(s: Seq<char>, cur: Seq<char>, first: bool, out: Seq<Comp>) -> Seq<Comp>
    decreases s.len(),
{
    if s.len() == 0 {
        out + segment_comp(cur, first)
    } else if s[0] == '/' {
        comps_from(s.drop_first(), Seq::empty(), false, out + segment_comp(cur, first))
    } else {
        comps_from(s.drop_first(), cur.push(s[0]), first, out)
    }
}

/// The components of a path, as `Path::components` yields them for a
/// `/`-separated path: a root for a leading `/`, a `.` only in first place,
/// and no empty names.
pub open spec fn components(s: Seq<char>) -> Seq<Comp> {
    if s.len() > 0 && s[0] == '/' {
        comps_from(s.drop_first(), Seq::empty(), false, seq![Comp::Root])
    } else {
        comps_from(s, Seq::empty(), true, Seq::empty())
    }
}

fn copy_str(s: &str) -> (r: String)
    ensures
        r@ == s@,
{
    String::from_str(s)
}

fn segment_component(seg: &String, first: bool, out: &mut Vec<PathComponent>)
    ensures
        comps_view(final(out)@) == comps_view(old(out)@) + segment_comp(seg@, first),
{
    let n = seg.as_str().unicode_len();
    proof {
        reveal_strlit(".");
        reveal_strlit("..");
    }
    if n == 0 {
        assert(comps_view(out@) =~= comps_view(out@) + segment_comp(seg@, first));
        return;
    }
    let c0 = seg.as_str().get_char(0);
    if n == 1 && c0 == '.' {
        assert(seg@ =~= "."@);
        if first {
            out.push(PathComponent::CurDir);
            assert(comps_view(out@) =~= comps_view(old(out)@) + seq![Comp::Cur]);
        } else {
            assert(comps_view(out@) =~= comps_view(out@) + segment_comp(seg@, first));
        }
        return;
    }
    if n == 2 && c0 == '.' && seg.as_str().get_char(1) == '.' {
        assert(seg@ =~= ".."@);
        out.push(PathComponent::ParentDir);
        assert(comps_view(out@) =~= comps_view(old(out)@) + seq![Comp::Parent]);
        return;
    }
    assert(seg@ != "."@) by {
        if n == 1 {
            assert(seg@[0] != "."@[0]);
        }
    }
    assert(seg@ != ".."@) by {
        if n == 2 {
            assert(seg@[0] != ".."@[0] || seg@[1] != ".."@[1]);
        }
    }
    let c = PathComponent::Normal(seg.clone());
    out.push(c);
    assert(comps_view(out@) =~= comps_view(old(out)@) + seq![Comp::Normal(seg@)]);
}

/// The components of `path` (see `components`).
pub fn path_components(path: &str) -> (out: Vec<PathComponent>)
    ensures
        comps_view(out@) == components(path@),
{
    let n = path.unicode_len();
    let mut out: Vec<PathComponent> = Vec::new();
    let mut i: usize = 0;
    let mut first = true;
    if n > 0 && path.get_char(0) == '/' {
        out.push(PathComponent::RootDir);
        i = 1;
        first = false;
        assert(comps_view(out@) =~= seq![Comp::Root]);
        assert(path@.skip(1) =~= path@.drop_first());
    } else {
        assert(comps_view(out@) =~= Seq::<Comp>::empty());
        assert(path@.skip(0) =~= path@);
    }
    let mut cur = String::new();
    while i < n
        invariant
            n == path@.len(),
            i <= n,
            components(path@) == comps_from(path@.skip(i as int), cur@, first, comps_view(out@)),
        decreases n - i,
    {
        let c = path.get_char(i);
        proof {
            assert(path@.skip(i as int)[0] == c);
            assert(path@.skip(i as int).drop_first() =~= path@.skip(i + 1));
        }
        if c == '/' {
            segment_component(&cur, first, &mut out);
            cur = String::new();
            first = false;
            assert(cur@ =~= Seq::<char>::empty());
        } else {
            push_char(&mut cur, c);
        }
        i = i + 1;
    }
    segment_component(&cur, first, &mut out);
    out
}

/// Every component is a plain name or `.`: the path stays below its base.
pub open spec fn relative_and_descending(cs: Seq<Comp>) -> bool {
    forall|i: int| 0 <= i < cs.len() ==> (#[trigger] cs[i] is Normal || cs[i] is Cur)
}

/// Whether every component is a plain name or `.`.
pub fn components_are_relative(cs: &Vec<PathComponent>) -> (b: bool)
    ensures
        b == relative_and_descending(comps_view(cs@)),
{
    let mut i: usize = 0;
    while i < cs.len()
        invariant
            i <= cs.len(),
            forall|j: int|
                0 <= j < i ==> (#[trigger] comps_view(cs@)[j] is Normal || comps_view(cs@)[j] is Cur),
        decreases cs.len() - i,
    {
        match &cs[i] {
            PathComponent::Normal(_) => {},
            PathComponent::CurDir => {},
            _ => {
                assert(!(comps_view(cs@)[i as int] is Normal || comps_view(cs@)[i as int] is Cur));
                return false;
            },
        }
        i = i + 1;
    }
    true
}

/// Rejects a repository-relative path that is absolute or climbs with `..`.
pub fn validate_repo_relative_path(path: &str) -> (r: Result<(), BackendError>)
    ensures
        r is Ok <==> relative_and_descending(components(path@)),
        r matches Err(e) ==> is_invalid_path(e, path@),
{
    let cs = path_components(path);
    if components_are_relative(&cs) {
        Ok(())
    } else {
        Err(BackendError::InvalidPath(copy_str(path)))
    }
}

/// Components found so far stay in front of those found after them.
proof fn lemma_comps_acc(s: Seq<char>, cur: Seq<char>, first: bool, out: Seq<Comp>)
    ensures
        comps_from(s, cur, first, out) == out + comps_from(s, cur, first, Seq::empty()),
    decreases s.len(),
{
    if s.len() == 0 {
        assert(Seq::<Comp>::empty() + segment_comp(cur, first) =~= segment_comp(cur, first));
        assert(out + segment_comp(cur, first) =~= out + (Seq::<Comp>::empty() + segment_comp(
            cur,
            first,
        )));
    } else if s[0] == '/' {
        let seg = segment_comp(cur, first);
        lemma_comps_acc(s.drop_first(), Seq::empty(), false, out + seg);
        lemma_comps_acc(s.drop_first(), Seq::empty(), false, Seq::<Comp>::empty() + seg);
        assert(Seq::<Comp>::empty() + seg =~= seg);
        assert((out + seg) + comps_from(s.drop_first(), Seq::empty(), false, Seq::empty()) =~= out
            + (seg + comps_from(s.drop_first(), Seq::empty(), false, Seq::empty())));
    } else {
        lemma_comps_acc(s.drop_first(), cur.push(s[0]), first, out);
    }
}

/// Reading `s1`, a `/` and `s2` reads `s1` to its end, then `s2` as later segments.
proof fn lemma_comps_split(s1: Seq<char>, s2: Seq<char>, cur: Seq<char>, first: bool, out: Seq<Comp>)
    ensures
        comps_from(s1 + seq!['/'] + s2, cur, first, out) == comps_from(
            s2,
            Seq::empty(),
            false,
            comps_from(s1, cur, first, out),
        ),
    decreases s1.len(),
{
    let s = s1 + seq!['/'] + s2;
    if s1.len() == 0 {
        assert(s[0] == '/');
        assert(s.drop_first() =~= s2);
    } else {
        assert(s[0] == s1[0]);
        assert(s.drop_first() =~= s1.drop_first() + seq!['/'] + s2);
        if s1[0] == '/' {
            lemma_comps_split(s1.drop_first(), s2, Seq::empty(), false, out + segment_comp(cur, first));
        } else {
            lemma_comps_split(s1.drop_first(), s2, cur.push(s1[0]), first, out);
        }
    }
}

/// Segments read after the first cannot climb when the same segments read
/// as the first ones do not: a `..` comes out the same either way.
proof fn lemma_later_segments_descend(
    s: Seq<char>,
    cur: Seq<char>,
    out_first: Seq<Comp>,
    out_later: Seq<Comp>,
)
    requires
        relative_and_descending(out_later),
        relative_and_descending(comps_from(s, cur, true, out_first)),
    ensures
        relative_and_descending(comps_from(s, cur, false, out_later)),
    decreases s.len(),
{
    reveal_strlit("..");
    reveal_strlit(".");
    if s.len() == 0 {
        let seg_first = segment_comp(cur, true);
        let all = out_first + seg_first;
        if cur == ".."@ {
            assert(all[out_first.len() as int] == Comp::Parent);
        }
        let r = out_later + segment_comp(cur, false);
        assert forall|i: int| 0 <= i < r.len() implies (#[trigger] r[i] is Normal || r[i] is Cur) by {
            if i >= out_later.len() {
                assert(r[i] == segment_comp(cur, false)[i - out_later.len()]);
            }
        };
    } else if s[0] == '/' {
        let seg_first = segment_comp(cur, true);
        let seg_later = segment_comp(cur, false);
        let rest = comps_from(s.drop_first(), Seq::empty(), false, Seq::empty());
        lemma_comps_acc(s.drop_first(), Seq::empty(), false, out_first + seg_first);
        lemma_comps_acc(s.drop_first(), Seq::empty(), false, out_later + seg_later);
        let x = (out_first + seg_first) + rest;
        if cur == ".."@ {
            assert(x[out_first.len() as int] == Comp::Parent);
        }
        let y = (out_later + seg_later) + rest;
        assert forall|i: int| 0 <= i < y.len() implies (#[trigger] y[i] is Normal || y[i] is Cur) by {
            if i < out_later.len() {
                assert(y[i] == out_later[i]);
            } else if i < out_later.len() + seg_later.len() {
                assert(y[i] == seg_later[i - out_later.len()]);
            } else {
                let k = i - out_later.len() - seg_later.len();
                assert(y[i] == rest[k]);
                assert(x[out_first.len() + seg_first.len() + k] == rest[k]);
            }
        };
    } else {
        lemma_later_segments_descend(s.drop_first(), cur.push(s[0]), out_first, out_later);
    }
}

/// Joining a name to a non-empty base keeps the base's components in front
/// and reads the name as later segments.
proof fn lemma_joined_components(base: Seq<char>, name: Seq<char>)
    requires
        base.len() > 0,
    ensures
        components(joined(base, name)) == components(base) + comps_from(
            name,
            Seq::empty(),
            false,
            Seq::empty(),
        ),
{
    let j = joined(base, name);
    let e = Seq::<char>::empty();
    if base.last() != '/' {
        assert(j == base + seq!['/'] + name);
        if base[0] == '/' {
            assert(j[0] == '/');
            assert(j.drop_first() =~= base.drop_first() + seq!['/'] + name);
            lemma_comps_split(base.drop_first(), name, e, false, seq![Comp::Root]);
        } else {
            assert(j[0] == base[0]);
            lemma_comps_split(base, name, e, true, Seq::empty());
        }
    } else {
        let b = base.drop_last();
        assert(j =~= b + seq!['/'] + name);
        assert(base =~= b + seq!['/'] + e);
        if base[0] == '/' {
            if b.len() == 0 {
                assert(base =~= seq!['/']);
                assert(base.drop_first() =~= e);
                assert(j[0] == '/');
                assert(j.drop_first() =~= name);
                assert(seq![Comp::Root] + segment_comp(e, false) =~= seq![Comp::Root]);
            } else {
                let bt = b.drop_first();
                assert(base.drop_first() =~= bt + seq!['/'] + e);
                assert(j[0] == '/');
                assert(j.drop_first() =~= bt + seq!['/'] + name);
                lemma_comps_split(bt, e, e, false, seq![Comp::Root]);
                lemma_comps_split(bt, name, e, false, seq![Comp::Root]);
                let k = comps_from(bt, e, false, seq![Comp::Root]);
                assert(comps_from(e, e, false, k) =~= k);
            }
        } else {
            assert(b.len() > 0);
            assert(j[0] == base[0]);
            lemma_comps_split(b, e, e, true, Seq::empty());
            lemma_comps_split(b, name, e, true, Seq::empty());
            let k = comps_from(b, e, true, Seq::empty());
            assert(comps_from(e, e, false, k) =~= k);
        }
    }
    lemma_comps_acc(name, e, false, components(base));
}

/// A path that passes `validate_repo_relative_path`, joined to any base
/// directory, names the base or something below it: the joined path's
/// components begin with the base's, and each one after them is a plain name
/// or `.`, never `..` or a root.
pub proof fn law_validated_paths_stay_inside(base: Seq<char>, rel: Seq<char>)
    requires
        relative_and_descending(components(rel)),
    ensures
        comps_full_prefix(components(base), components(joined(base, rel))),
        forall|i: int|
            components(base).len() <= i < components(joined(base, rel)).len() ==> (
            #[trigger] components(joined(base, rel))[i] is Normal || components(joined(base, rel))[i] is Cur),
{
    let e = Seq::<char>::empty();
    if rel.len() > 0 && rel[0] == '/' {
        lemma_comps_acc(rel.drop_first(), e, false, seq![Comp::Root]);
        assert(components(rel)[0] == Comp::Root);
    }
    assert(components(rel) == comps_from(rel, e, true, Seq::empty()));
    if base.len() == 0 {
        assert(components(base) =~= Seq::<Comp>::empty());
        assert(joined(base, rel) =~= rel);
        assert(components(joined(base, rel)).take(0) =~= Seq::<Comp>::empty());
    } else {
        lemma_joined_components(base, rel);
        lemma_later_segments_descend(rel, e, Seq::empty(), Seq::empty());
        let cb = components(base);
        let t = comps_from(rel, e, false, Seq::empty());
        assert((cb + t).take(cb.len() as int) =~= cb);
        assert forall|i: int| cb.len() <= i < (cb + t).len() implies (#[trigger] (cb + t)[i] is Normal
            || (cb + t)[i] is Cur) by {
            assert((cb + t)[i] == t[i - cb.len()]);
        };
    }
}

/// The plain names among the components, in order.
pub open spec fn normal_names(cs: Seq<Comp>) -> Seq<Seq<char>>
    decreases cs.len(),
{
    if cs.len() == 0 {
        Seq::empty()
    } else {
        let rest = normal_names(cs.drop_last());
        match cs.last() {
            Comp::Normal(s) => rest.push(s),
            _ => rest,
        }
    }
}

/// The repository path that a validated relative path names: its plain
/// names, with `.` dropped.
pub fn normal_parts(cs: &Vec<PathComponent>) -> (out: Vec<String>)
    ensures
        out@.map_values(|s: String| s@) == normal_names(comps_view(cs@)),
{
    let mut out: Vec<String> = Vec::new();
    let mut i: usize = 0;
    while i < cs.len()
        invariant
            i <= cs.len(),
            out@.map_values(|s: String| s@) == normal_names(comps_view(cs@).take(i as int)),
        decreases cs.len() - i,
    {
        proof {
            assert(comps_view(cs@).take(i + 1).drop_last() =~= comps_view(cs@).take(i as int));
        }
        match &cs[i] {
            PathComponent::Normal(s) => {
                let t = s.clone();
                proof {
                    assert(out@.push(t).map_values(|s: String| s@) =~= out@.map_values(
                        |s: String| s@,
                    ).push(t@));
                }
                out.push(t);
            },
            _ => {},
        }
        i = i + 1;
    }
    assert(comps_view(cs@).take(cs@.len() as int) =~= comps_view(cs@));
    out
}

/// `parent` is a component-wise prefix of `child`, as `Path::starts_with` checks.
pub open spec fn comps_prefix(parent: Seq<Seq<char>>, child: Seq<Seq<char>>) -> bool {
    parent.len() <= child.len() && child.take(parent.len() as int) == parent
}

/// Whether `parent` is a component-wise prefix of `child`.
pub fn names_prefix(parent: &Vec<String>, child: &Vec<String>) -> (b: bool)
    ensures
        b == comps_prefix(parent@.map_values(|s: String| s@), child@.map_values(|s: String| s@)),
{
    let ghost p = parent@.map_values(|s: String| s@);
    let ghost c = child@.map_values(|s: String| s@);
    if parent.len() > child.len() {
        return false;
    }
    let mut i: usize = 0;
    while i < parent.len()
        invariant
            i <= parent.len() <= child.len(),
            p == parent@.map_values(|s: String| s@),
            c == child@.map_values(|s: String| s@),
            forall|j: int| 0 <= j < i ==> p[j] == c[j],
        decreases parent.len() - i,
    {
        if !crate::order::string_eq(parent[i].as_str(), child[i].as_str()) {
            assert(c.take(p.len() as int)[i as int] != p[i as int]);
            return false;
        }
        i = i + 1;
    }
    assert(c.take(p.len() as int) =~= p);
    true
}

/// The plain names of a path given as a string.
pub open spec fn path_names(s: Seq<char>) -> Seq<Seq<char>> {
    normal_names(components(s))
}

/// `child` lies strictly below the directory with names `dir`: it has the
/// directory's names as a prefix and is not the directory itself.
pub open spec fn strictly_below(child: Seq<char>, dir: Seq<Seq<char>>) -> bool {
    comps_prefix(dir, path_names(child)) && path_names(child) != dir
}

/// When a directory is staged, a status path is included when it lies
/// strictly below the directory.
pub fn is_strict_descendant(child_path: &str, dir_names: &Vec<String>) -> (b: bool)
    ensures
        b == strictly_below(child_path@, dir_names@.map_values(|s: String| s@)),
{
    let cs = path_components(child_path);
    let names = normal_parts(&cs);
    let prefix = names_prefix(dir_names, &names);
    if !prefix {
        return false;
    }
    let same = names.len() == dir_names.len();
    proof {
        let d = dir_names@.map_values(|s: String| s@);
        let c = names@.map_values(|s: String| s@);
        if same {
            assert(c =~= c.take(d.len() as int));
        } else {
            assert(c.len() != d.len());
        }
    }
    !same
}


/// Walks the plain names of a path as the watcher does: whether a `.git`
/// name was seen, and the first and last names after it (other `.git` names
/// aside).
pub open spec fn git_scan(names: Seq<Seq<char>>) -> (bool, Option<Seq<char>>, Option<Seq<char>>)
    decreases names.len(),
{
    if names.len() == 0 {
        (false, None, None)
    } else {
        let (inside, first, last) = git_scan(names.drop_last());
        let n = names.last();
        if n == ".git"@ {
            (true, first, last)
        } else if inside {
            (true, if first is None {
                Some(n)
            } else {
                first
            }, Some(n))
        } else {
            (inside, first, last)
        }
    }
}

/// Entries directly under `.git` whose change alters what the status shows.
pub open spec fn status_relevant_git_entry(f: Seq<char>) -> bool {
    ||| f == "HEAD"@
    ||| f == "index"@
    ||| f == "packed-refs"@
    ||| f == "MERGE_HEAD"@
    ||| f == "CHERRY_PICK_HEAD"@
    ||| f == "REVERT_HEAD"@
    ||| f == "REBASE_HEAD"@
    ||| f == "ORIG_HEAD"@
    ||| f == "refs"@
}

/// A changed path matters to the status unless it lies under `.git`; there
/// it matters only below HEAD, the index, refs and the like, and never for a
/// `.lock` file.
pub open spec fn path_relevant(path: Seq<char>) -> bool {
    let (inside, first, last) = git_scan(path_names(path));
    if !inside {
        true
    } else {
        match first {
            None => false,
            Some(f) => if last matches Some(l) && has_suffix(l, ".lock"@) {
                false
            } else {
                status_relevant_git_entry(f)
            },
        }
    }
}

proof fn lemma_git_scan_inside(names: Seq<Seq<char>>)
    ensures
        git_scan(names).0 == names.contains(".git"@),
    decreases names.len(),
{
    if names.len() > 0 {
        lemma_git_scan_inside(names.drop_last());
        let rest = names.drop_last();
        assert(names =~= rest.push(names.last()));
        if rest.contains(".git"@) {
            let k = choose|k: int| 0 <= k < rest.len() && rest[k] == ".git"@;
            assert(names[k] == ".git"@);
        }
        if names.contains(".git"@) && names.last() != ".git"@ {
            let k = choose|k: int| 0 <= k < names.len() && names[k] == ".git"@;
            assert(k < names.len() - 1);
            assert(rest[k] == ".git"@);
        }
    }
}

/// A change to a path with no `.git` component always refreshes the status.
pub proof fn law_changes_outside_git_dir_are_relevant(path: Seq<char>)
    ensures
        !path_names(path).contains(".git"@) ==> path_relevant(path),
{
    lemma_git_scan_inside(path_names(path));
}

/// The position of the first `.git` among the names.
pub open spec fn first_git(ns: Seq<Seq<char>>) -> Option<int>
    decreases ns.len(),
{
    if ns.len() == 0 {
        None
    } else {
        match first_git(ns.drop_last()) {
            Some(g) => Some(g),
            None => if ns.last() == ".git"@ {
                Some(ns.len() - 1)
            } else {
                None
            },
        }
    }
}

/// The names other than `.git`, in order.
pub open spec fn non_git(ns: Seq<Seq<char>>) -> Seq<Seq<char>>
    decreases ns.len(),
{
    if ns.len() == 0 {
        Seq::empty()
    } else if ns.last() == ".git"@ {
        non_git(ns.drop_last())
    } else {
        non_git(ns.drop_last()).push(ns.last())
    }
}

proof fn lemma_git_scan_by_first_git(ns: Seq<Seq<char>>)
    ensures
        first_git(ns) matches Some(g) ==> 0 <= g < ns.len(),
        git_scan(ns) == (match first_git(ns) {
            None => (false, None, None),
            Some(g) => {
                let a = non_git(ns.skip(g + 1));
                (
                    true,
                    if a.len() > 0 {
                        Some(a[0])
                    } else {
                        None
                    },
                    if a.len() > 0 {
                        Some(a.last())
                    } else {
                        None
                    },
                )
            },
        }),
    decreases ns.len(),
{
    if ns.len() > 0 {
        let rest = ns.drop_last();
        let x = ns.last();
        lemma_git_scan_by_first_git(rest);
        match first_git(rest) {
            Some(g) => {
                let r = rest.skip(g + 1);
                assert(ns.skip(g + 1) =~= r.push(x));
                assert(r.push(x).drop_last() =~= r);
                let a = non_git(r);
                if x != ".git"@ {
                    let b = a.push(x);
                    assert(non_git(ns.skip(g + 1)) == b);
                    if a.len() > 0 {
                        assert(b[0] == a[0]);
                    }
                }
            },
            None => {
                if x == ".git"@ {
                    assert(ns.skip(ns.len() as int) =~= Seq::<Seq<char>>::empty());
                }
            },
        }
    }
}

/// Which filesystem changes refresh the status: a path with no `.git`
/// component always does; otherwise, with the names after its first `.git`
/// (other `.git` names left out), it does exactly when there is such a name,
/// the first is HEAD, index, packed-refs, MERGE_HEAD, CHERRY_PICK_HEAD,
/// REVERT_HEAD, REBASE_HEAD, ORIG_HEAD or refs, and the last does not end
/// with `.lock` (a path ending at `.git` does not).
pub proof fn law_relevance_by_names(path: Seq<char>)
    ensures
        path_relevant(path) == (match first_git(path_names(path)) {
            None => true,
            Some(g) => {
                let a = non_git(path_names(path).skip(g + 1));
                a.len() > 0 && status_relevant_git_entry(a[0]) && !has_suffix(a.last(), ".lock"@)
            },
        }),
{
    lemma_git_scan_by_first_git(path_names(path));
}

proof fn lemma_first_git_none(ds: Seq<Seq<char>>)
    requires
        !ds.contains(".git"@),
    ensures
        first_git(ds) is None,
    decreases ds.len(),
{
    if ds.len() > 0 {
        assert(ds.drop_last().len() < ds.len());
        if ds.drop_last().contains(".git"@) {
            let k = choose|k: int| 0 <= k < ds.drop_last().len() && ds.drop_last()[k] == ".git"@;
            assert(ds[k] == ".git"@);
        }
        lemma_first_git_none(ds.drop_last());
        assert(ds[ds.len() - 1] == ds.last());
    }
}

proof fn lemma_first_git_at(ds: Seq<Seq<char>>, rest: Seq<Seq<char>>)
    requires
        !ds.contains(".git"@),
    ensures
        first_git(ds + seq![".git"@] + rest) == Some(ds.len() as int),
    decreases rest.len(),
{
    let ns = ds + seq![".git"@] + rest;
    if rest.len() == 0 {
        assert(ns.drop_last() =~= ds);
        lemma_first_git_none(ds);
    } else {
        assert(ns.drop_last() =~= ds + seq![".git"@] + rest.drop_last());
        lemma_first_git_at(ds, rest.drop_last());
    }
}

proof fn lemma_non_git_keeps(rest: Seq<Seq<char>>)
    requires
        !rest.contains(".git"@),
    ensures
        non_git(rest) == rest,
    decreases rest.len(),
{
    if rest.len() > 0 {
        if rest.drop_last().contains(".git"@) {
            let k = choose|k: int| 0 <= k < rest.drop_last().len() && rest.drop_last()[k] == ".git"@;
            assert(rest[k] == ".git"@);
        }
        lemma_non_git_keeps(rest.drop_last());
        assert(rest[rest.len() - 1] == rest.last());
        assert(rest.drop_last().push(rest.last()) =~= rest);
    }
}

/// A change under `.git` to HEAD, the index, packed-refs, MERGE_HEAD,
/// CHERRY_PICK_HEAD, REVERT_HEAD, REBASE_HEAD, ORIG_HEAD or anything under
/// refs refreshes the status, unless it is a `.lock` file: for a path whose
/// names are some directories (none of them `.git`), `.git`, then such a
/// name and what follows it.
pub proof fn law_git_state_changes_are_relevant(
    path: Seq<char>,
    dirs: Seq<Seq<char>>,
    rest: Seq<Seq<char>>,
)
    requires
        path_names(path) == dirs + seq![".git"@] + rest,
        !dirs.contains(".git"@),
        !rest.contains(".git"@),
        rest.len() > 0,
        rest[0] == "HEAD"@ || rest[0] == "index"@ || rest[0] == "packed-refs"@ || rest[0]
            == "MERGE_HEAD"@ || rest[0] == "CHERRY_PICK_HEAD"@ || rest[0] == "REVERT_HEAD"@
            || rest[0] == "REBASE_HEAD"@ || rest[0] == "ORIG_HEAD"@ || rest[0] == "refs"@,
        !has_suffix(rest.last(), ".lock"@),
    ensures
        path_relevant(path),
{
    let ns = path_names(path);
    lemma_first_git_at(dirs, rest);
    law_relevance_by_names(path);
    let g = dirs.len() as int;
    assert(ns.skip(g + 1) =~= rest);
    lemma_non_git_keeps(rest);
}

/// A change under `.git` to a `.lock` file never refreshes the status, nor
/// does a change of the `.git` directory itself: for a path whose names are
/// some directories (none of them `.git`), `.git`, then names ending with one
/// that ends in `.lock`, or nothing.
pub proof fn law_git_lock_files_are_ignored(path: Seq<char>, dirs: Seq<Seq<char>>, rest: Seq<Seq<char>>)
    requires
        path_names(path) == dirs + seq![".git"@] + rest,
        !dirs.contains(".git"@),
        rest.len() == 0 || (rest.last() != ".git"@ && has_suffix(rest.last(), ".lock"@)),
    ensures
        !path_relevant(path),
{
    let ns = path_names(path);
    lemma_first_git_at(dirs, rest);
    law_relevance_by_names(path);
    let g = dirs.len() as int;
    assert(ns.skip(g + 1) =~= rest);
    if rest.len() > 0 {
        assert(non_git(rest) == non_git(rest.drop_last()).push(rest.last()));
    } else {
        assert(non_git(rest).len() == 0);
    }
}

fn is_relevant_git_entry(f: &str) -> (b: bool)
    ensures
        b == status_relevant_git_entry(f@),
{
    string_eq(f, "HEAD") || string_eq(f, "index") || string_eq(f, "packed-refs") || string_eq(
        f,
        "MERGE_HEAD",
    ) || string_eq(f, "CHERRY_PICK_HEAD") || string_eq(f, "REVERT_HEAD") || string_eq(
        f,
        "REBASE_HEAD",
    ) || string_eq(f, "ORIG_HEAD") || string_eq(f, "refs")
}

/// Whether a filesystem change at `path` should refresh the status.
pub fn path_is_relevant(path: &str) -> (b: bool)
    ensures
        b == path_relevant(path@),
{
    let cs = path_components(path);
    let names = normal_parts(&cs);
    let ghost ns = names@.map_values(|s: String| s@);
    let mut inside = false;
    let mut first: Option<usize> = None;
    let mut last: Option<usize> = None;
    let mut i: usize = 0;
    while i < names.len()
        invariant
            i <= names.len(),
            ns == names@.map_values(|s: String| s@),
            ({
                let (gi, gf, gl) = git_scan(ns.take(i as int));
                &&& gi == inside
                &&& (match first {
                    None => gf is None,
                    Some(k) => k < i && gf == Some(ns[k as int]),
                })
                &&& (match last {
                    None => gl is None,
                    Some(k) => k < i && gl == Some(ns[k as int]),
                })
                &&& (first is Some ==> last is Some)
            }),
        decreases names.len() - i,
    {
        proof {
            assert(ns.take(i + 1).drop_last() =~= ns.take(i as int));
            assert(ns.take(i + 1).last() == ns[i as int]);
        }
        if crate::order::string_eq(names[i].as_str(), ".git") {
            inside = true;
        } else if inside {
            if first.is_none() {
                first = Some(i);
            }
            last = Some(i);
        }
        i = i + 1;
    }
    assert(ns.take(names.len() as int) =~= ns);
    if !inside {
        return true;
    }
    match first {
        None => false,
        Some(f) => {
            let l = last.unwrap();
            if ends_with(names[l].as_str(), ".lock") {
                false
            } else {
                is_relevant_git_entry(names[f].as_str())
            }
        },
    }
}

/// The position of the first `c` in `s`.
pub open spec fn find_char(s: Seq<char>, c: char) -> Option<int>
    decreases s.len(),
{
    if s.len() == 0 {
        None
    } else if s[0] == c {
        Some(0)
    } else {
        match find_char(s.drop_first(), c) {
            Some(i) => Some(i + 1),
            None => None,
        }
    }
}

proof fn lemma_find_char_bounds(s: Seq<char>, c: char)
    ensures
        find_char(s, c) matches Some(i) ==> 0 <= i < s.len() && s[i] == c,
    decreases s.len(),
{
    if s.len() > 0 && s[0] != c {
        lemma_find_char_bounds(s.drop_first(), c);
    }
}

/// The position of the first `c` in `s`.
pub fn first_index_of(s: &str, c: char) -> (r: Option<usize>)
    ensures
        match r {
            Some(i) => find_char(s@, c) == Some(i as int),
            None => find_char(s@, c) is None,
        },
{
    let n = s.unicode_len();
    let mut i: usize = 0;
    assert(s@.skip(0) =~= s@);
    while i < n
        invariant
            n == s@.len(),
            i <= n,
            forall|j: int| 0 <= j < i ==> s@[j] != c,
            find_char(s@, c) == (match find_char(s@.skip(i as int), c) {
                Some(k) => Some(k + i),
                None => None::<int>,
            }),
        decreases n - i,
    {
        proof {
            assert(s@.skip(i as int)[0] == s@[i as int]);
            assert(s@.skip(i as int).drop_first() =~= s@.skip(i + 1));
        }
        if s.get_char(i) == c {
            return Some(i);
        }
        i = i + 1;
    }
    None
}

/// `head:tail` is a Windows drive path such as `C:/Users/...` or `C:\x`: a
/// single ASCII letter, then `:` and a `/` or `\`.
pub open spec fn is_drive_path(head: Seq<char>, tail: Seq<char>) -> bool {
    &&& head.len() == 1
    &&& ('a' <= head[0] <= 'z' || 'A' <= head[0] <= 'Z')
    &&& tail.len() > 0
    &&& (tail[0] == '/' || tail[0] == '\\')
}

/// `host:path` splits at its first `:` into a host (not empty, without `/`
/// or `\`, so `/abs/path` is not taken for one) and a non-empty path; a
/// drive path such as `C:/Users/...` is not taken for one either.
pub open spec fn host_path_split(arg: Seq<char>) -> Option<(Seq<char>, Seq<char>)> {
    match find_char(arg, ':') {
        None => None,
        Some(i) => {
            let head = arg.take(i);
            let tail = arg.skip(i + 1);
            if head.len() == 0 || head.contains('/') || head.contains('\\') || tail.len() == 0
                || is_drive_path(head, tail) {
                None
            } else {
                Some((head, tail))
            }
        },
    }
}

/// Whether `head:tail` is a drive path.
fn drive_path(head: &str, tail: &str) -> (b: bool)
    ensures
        b == is_drive_path(head@, tail@),
{
    if head.unicode_len() != 1 || tail.unicode_len() == 0 {
        return false;
    }
    let c = head.get_char(0);
    let t = tail.get_char(0);
    (('a' <= c && c <= 'z') || ('A' <= c && c <= 'Z')) && (t == '/' || t == '\\')
}

/// Splits a `host:/path` argument into host and path.
pub fn parse_host_path(arg: &str) -> (r: Option<(String, String)>)
    ensures
        match r {
            Some((h, p)) => host_path_split(arg@) == Some((h@, p@)),
            None => host_path_split(arg@) is None,
        },
{
    let n = arg.unicode_len();
    match first_index_of(arg, ':') {
        None => None,
        Some(i) => {
            proof {
                lemma_find_char_bounds(arg@, ':');
            }
            let head = arg.substring_char(0, i);
            let tail = arg.substring_char(i + 1, n);
            assert(head@ =~= arg@.take(i as int));
            assert(tail@ =~= arg@.skip(i + 1));
            if head.unicode_len() == 0 || crate::text::contains_char(head, '/')
                || crate::text::contains_char(head, '\\') || tail.unicode_len() == 0 || drive_path(
                head,
                tail,
            ) {
                None
            } else {
                Some((copy_str(head), copy_str(tail)))
            }
        },
    }
}

/// A Windows drive path is never taken for `host:path`: `C:/Users/x` and
/// `d:\work` name local paths.
pub proof fn law_drive_paths_are_local(letter: char, rest: Seq<char>)
    requires
        'a' <= letter <= 'z' || 'A' <= letter <= 'Z',
        rest.len() > 0,
        rest[0] == '/' || rest[0] == '\\',
    ensures
        host_path_split(seq![letter, ':'] + rest) is None,
{
    let arg = seq![letter, ':'] + rest;
    assert(arg[0] != ':');
    assert(arg.drop_first()[0] == ':');
    assert(find_char(arg.drop_first(), ':') == Some(0int));
    assert(find_char(arg, ':') == Some(1int));
    assert(arg.take(1) =~= seq![letter]);
    assert(arg.skip(2) =~= rest);
}

/// `base` joined with one relative name, as `PathBuf::join` does with `/`.
pub open spec fn joined(base: Seq<char>, name: Seq<char>) -> Seq<char> {
    if base.len() == 0 || base.last() == '/' {
        base + name
    } else {
        base + seq!['/'] + name
    }
}

/// `base` joined with the relative name `name`.
pub fn join_path(base: &str, name: &str) -> (s: String)
    ensures
        s@ == joined(base@, name@),
{
    let n = base.unicode_len();
    if n == 0 || base.get_char(n - 1) == '/' {
        crate::text::concat2(base, name)
    } else {
        let s = concat3(base, "/", name);
        proof {
            reveal_strlit("/");
            assert(s@ =~= base@ + seq!['/'] + name@);
        }
        s
    }
}

/// The comparison of full component lists: `root` is a prefix of `target`.
pub open spec fn comps_full_prefix(root: Seq<Comp>, target: Seq<Comp>) -> bool {
    root.len() <= target.len() && target.take(root.len() as int) == root
}

fn same_component(a: &PathComponent, b: &PathComponent) -> (r: bool)
    ensures
        r == (comp_view(*a) == comp_view(*b)),
{
    match (a, b) {
        (PathComponent::RootDir, PathComponent::RootDir) => true,
        (PathComponent::CurDir, PathComponent::CurDir) => true,
        (PathComponent::ParentDir, PathComponent::ParentDir) => true,
        (PathComponent::Normal(x), PathComponent::Normal(y)) => crate::order::string_eq(
            x.as_str(),
            y.as_str(),
        ),
        _ => false,
    }
}

/// Whether `target` lies at or below `root`, compared by components as
/// `Path::starts_with` does.
pub fn path_starts_with(target: &str, root: &str) -> (b: bool)
    ensures
        b == comps_full_prefix(components(root@), components(target@)),
{
    let t = path_components(target);
    let r = path_components(root);
    let ghost tv = comps_view(t@);
    let ghost rv = comps_view(r@);
    assert(tv.len() == t@.len() && rv.len() == r@.len());
    if r.len() > t.len() {
        return false;
    }
    let mut i: usize = 0;
    while i < r.len()
        invariant
            i <= r.len() <= t.len(),
            tv == comps_view(t@),
            rv == comps_view(r@),
            tv == components(target@),
            rv == components(root@),
            forall|j: int| 0 <= j < i ==> tv[j] == rv[j],
        decreases r.len() - i,
    {
        let same = same_component(&r[i], &t[i]);
        assert(rv[i as int] == comp_view(r@[i as int]) && tv[i as int] == comp_view(t@[i as int]));
        if !same {
            assert(tv.take(rv.len() as int)[i as int] != rv[i as int]);
            assert(!comps_full_prefix(rv, tv));
            return false;
        }
        i = i + 1;
    }
    assert(tv.take(rv.len() as int) =~= rv);
    true
}

/// The last step of resolving the target of a discard: the resolved target
/// must lie inside the canonical working directory.
pub fn canonical_contained_target(canonical_workdir: &str, safe_target: String) -> (r: Result<
    String,
    BackendError,
>)
    ensures
        comps_full_prefix(components(canonical_workdir@), components(safe_target@)) ==> r
            == Ok::<String, BackendError>(safe_target),
        !comps_full_prefix(components(canonical_workdir@), components(safe_target@)) ==> (r matches Err(
            e,
        ) && is_invalid_path(e, "path traversal detected"@)),
{
    if path_starts_with(safe_target.as_str(), canonical_workdir) {
        Ok(safe_target)
    } else {
        Err(BackendError::InvalidPath(String::from_str("path traversal detected")))
    }
}

} // verus!
