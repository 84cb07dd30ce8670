use vstd::prelude::*;

use crate::namespace::Namespace;
use crate::text::{join_char, push_char, rfind_char, split_char, spec_join, spec_split,
    starts_with_char, str_eq};

verus! {

// Paths run through the library as strings whose segments are separated by
// '/'; the program around it converts native paths to this form.

/// The segments of a path.
pub open spec fn components_of(p: Seq<char>) -> Seq<Seq<char>> {
    spec_split(p, '/')
}

/// A path is hidden when any of its segments begins with a dot.
pub open spec fn spec_path_hidden(p: Seq<char>) -> bool {
    exists|i: int|
        0 <= i < components_of(p).len() && components_of(p)[i].len() > 0 && components_of(
            p,
        )[i][0] == '.'
}

/// True when some segment of the path begins with a dot; such paths are
/// left out of resource discovery.
pub fn is_path_hidden(path: &str) -> (r: bool)
    ensures
        r == spec_path_hidden(path@),
{
    let comps = split_char(path, '/');
    let n = comps.len();
    let ghost views = comps@.map_values(|p: String| p@);
    let mut i: usize = 0;
    while i < n
        invariant
            n == comps@.len(),
            i <= n,
            views == comps@.map_values(|p: String| p@),
            views == components_of(path@),
            forall|k: int| 0 <= k < i ==> !(views[k].len() > 0 && views[k][0] == '.'),
        decreases n - i,
    {
        if starts_with_char(comps[i].as_str(), '.') {
            proof {
                assert(components_of(path@)[i as int].len() > 0 && components_of(
                    path@,
                )[i as int][0] == '.');
            }
            return true;
        }
        i = i + 1;
    }
    false
}

/// The two paths joined with a separator; an empty left side yields the right
/// side alone.
pub open spec fn spec_path_join(a: Seq<char>, b: Seq<char>) -> Seq<char> {
    if a.len() == 0 {
        b
    } else {
        a.push('/') + b
    }
}

/// Joins a directory and a path below it.
pub fn path_join(a: &str, b: &str) -> (r: String)
    ensures
        r@ == spec_path_join(a@, b@),
{
    if a.unicode_len() == 0 {
        b.to_owned()
    } else {
        let mut out = a.to_owned();
        push_char(&mut out, '/');
        out.append(b);
        out
    }
}

/// The final segment of a path.
pub open spec fn spec_file_name(p: Seq<char>) -> Seq<char> {
    components_of(p).last()
}

proof fn lemma_split_last(s: Seq<char>, c: char, i: int)
    requires
        0 <= i < s.len(),
        s[i] == c,
        forall|k: int| i < k < s.len() ==> s[k] != c,
    ensures
        spec_split(s, c).last() =~= s.skip(i + 1),
    decreases s.len(),
{
    if i == s.len() - 1 {
        assert(s.skip(i + 1) =~= Seq::<char>::empty());
    } else {
        lemma_split_last(s.drop_last(), c, i);
        assert(s.drop_last().skip(i + 1) =~= s.skip(i + 1).drop_last());
        crate::text::spec_split_len(s.drop_last(), c);
    }
}

proof fn lemma_split_whole(s: Seq<char>, c: char)
    requires
        forall|k: int| 0 <= k < s.len() ==> s[k] != c,
    ensures
        spec_split(s, c).last() =~= s,
        spec_split(s, c).len() == 1,
    decreases s.len(),
{
    if s.len() > 0 {
        lemma_split_whole(s.drop_last(), c);
        crate::text::spec_split_len(s.drop_last(), c);
    }
}

/// The final segment of a path: everything after the last separator, or the
/// whole path when it has a single segment.
pub fn file_name(p: &str) -> (r: String)
    ensures
        r@ == spec_file_name(p@),
{
    let len = p.unicode_len();
    match rfind_char(p, '/') {
        Some(i) => {
            proof {
                lemma_split_last(p@, '/', i as int);
            }
            let r = p.substring_char(i + 1, len).to_owned();
            proof {
                assert(p@.subrange(i + 1, len as int) =~= p@.skip(i + 1));
            }
            r
        },
        None => {
            proof {
                lemma_split_whole(p@, '/');
            }
            p.to_owned()
        },
    }
}

/// The directory part of a path: everything before the last separator, or
/// nothing when the path has a single segment.
pub open spec fn spec_dir_of(p: Seq<char>) -> Seq<char> {
    if crate::text::has_char(p, '/') {
        crate::text::spec_before_last(p, '/')
    } else {
        Seq::empty()
    }
}

/// The directory a path lies in.
pub fn dir_of(p: &str) -> (r: String)
    ensures
        r@ == spec_dir_of(p@),
{
    match rfind_char(p, '/') {
        Some(i) => {
            proof {
                assert(p@[i as int] == '/');
                assert(crate::text::has_char(p@, '/'));
            }
            crate::text::before_last(p, '/')
        },
        None => {
            proof {
                assert(!crate::text::has_char(p@, '/'));
            }
            String::new()
        },
    }
}

/// True when the segments of `prefix` are the first segments of `p`: the
/// test a resource uses to see whether a configured file already lies under
/// its root.
pub open spec fn spec_path_starts_with(p: Seq<char>, prefix: Seq<char>) -> bool {
    components_of(prefix).is_prefix_of(components_of(p))
}

/// Componentwise prefix test between paths.
pub fn path_starts_with(p: &str, prefix: &str) -> (r: bool)
    ensures
        r == spec_path_starts_with(p@, prefix@),
{
    let pc = split_char(p, '/');
    let fc = split_char(prefix, '/');
    let ghost pv = pc@.map_values(|s: String| s@);
    let ghost fv = fc@.map_values(|s: String| s@);
    if fc.len() > pc.len() {
        return false;
    }
    let n = fc.len();
    let mut i: usize = 0;
    while i < n
        invariant
            n == fc@.len() <= pc@.len(),
            i <= n,
            pv == pc@.map_values(|s: String| s@),
            fv == fc@.map_values(|s: String| s@),
            pv == components_of(p@),
            fv == components_of(prefix@),
            forall|k: int| 0 <= k < i ==> fv[k] == pv[k],
        decreases n - i,
    {
        if !str_eq(fc[i].as_str(), pc[i].as_str()) {
            proof {
                assert(fv[i as int] != pv[i as int]);
                assert(pv.subrange(0, fv.len() as int)[i as int] == pv[i as int]);
            }
            return false;
        }
        i = i + 1;
    }
    proof {
        assert(fv =~= pv.subrange(0, fv.len() as int));
    }
    true
}

/// A namespace segment has the form `@key=value`.
pub open spec fn is_ns_segment(c: Seq<char>) -> bool {
    c.len() > 0 && c[0] == '@' && spec_split(c.drop_first(), '=').len() == 2
}

/// The key of a namespace segment.
pub open spec fn ns_key(c: Seq<char>) -> Seq<char> {
    spec_split(c.drop_first(), '=')[0]
}

/// The value of a namespace segment.
pub open spec fn ns_value(c: Seq<char>) -> Seq<char> {
    spec_split(c.drop_first(), '=')[1]
}

/// The namespace written along a path: the bindings of its `@key=value`
/// segments, in order, later segments shadowing earlier ones.
pub open spec fn spec_namespaces_of(comps: Seq<Seq<char>>) -> Map<Seq<char>, Seq<char>>
    decreases comps.len(),
{
    if comps.len() == 0 {
        Map::empty()
    } else {
        let m = spec_namespaces_of(comps.drop_last());
        if is_ns_segment(comps.last()) {
            m.insert(ns_key(comps.last()), ns_value(comps.last()))
        } else {
            m
        }
    }
}

/// Collects the `@key=value` tags of a path into a namespace.
pub fn get_namespaces(path: &str) -> (ns: Namespace)
    ensures
        ns@ == spec_namespaces_of(components_of(path@)),
{
    let comps = split_char(path, '/');
    let ghost views = comps@.map_values(|p: String| p@);
    let n = comps.len();
    let mut ns = Namespace::new();
    let mut i: usize = 0;
    while i < n
        invariant
            n == comps@.len(),
            i <= n,
            views == comps@.map_values(|p: String| p@),
            views == components_of(path@),
            ns@ == spec_namespaces_of(views.take(i as int)),
        decreases n - i,
    {
        let comp = comps[i].as_str();
        let clen = comp.unicode_len();
        proof {
            assert(views.take(i + 1).drop_last() =~= views.take(i as int));
            assert(views.take(i + 1).last() == views[i as int]);
        }
        if starts_with_char(comp, '@') {
            let rest = comp.substring_char(1, clen);
            proof {
                assert(rest@ =~= views[i as int].drop_first());
            }
            let mut parts = split_char(rest, '=');
            if parts.len() == 2 {
                let value = parts.pop().unwrap();
                let key = parts.pop().unwrap();
                proof {
                    let pv = spec_split(views[i as int].drop_first(), '=');
                    assert(key@ == pv[0]);
                    assert(value@ == pv[1]);
                    assert(is_ns_segment(views[i as int]));
                }
                ns.insert(key, value);
            } else {
                proof {
                    assert(!is_ns_segment(views[i as int]));
                }
            }
        } else {
            proof {
                assert(!is_ns_segment(views[i as int]));
            }
        }
        i = i + 1;
    }
    proof {
        assert(views.take(n as int) =~= views);
    }
    ns
}

/// The dot-joined logical name of a resource: its path segments with the
/// namespace tags (segments beginning with `@`) left out.
pub open spec fn spec_derive_name(rel: Seq<char>) -> Seq<char> {
    spec_join(components_of(rel).filter(|c: Seq<char>| !(c.len() > 0 && c[0] == '@')), '.')
}

/// Derives the logical name of a resource from its path relative to the
/// source root.
pub fn derive_name(rel: &str) -> (r: String)
    ensures
        r@ == spec_derive_name(rel@),
{
    let comps = split_char(rel, '/');
    let ghost views = comps@.map_values(|p: String| p@);
    let ghost pred = |c: Seq<char>| !(c.len() > 0 && c[0] == '@');
    let n = comps.len();
    let mut kept: Vec<String> = Vec::new();
    let mut i: usize = 0;
    proof {
        reveal(Seq::filter);
        assert(views.take(0int).filter(pred) =~= Seq::<Seq<char>>::empty());
    }
    while i < n
        invariant
            n == comps@.len(),
            i <= n,
            views == comps@.map_values(|p: String| p@),
            kept@.map_values(|p: String| p@) =~= views.take(i as int).filter(
                |c: Seq<char>| !(c.len() > 0 && c[0] == '@'),
            ),
        decreases n - i,
    {
        proof {
            reveal(Seq::filter);
            assert(views.take(i + 1).drop_last() =~= views.take(i as int));
            assert(views.take(i + 1).last() == views[i as int]);
        }
        if !starts_with_char(comps[i].as_str(), '@') {
            let ghost old_kept = kept@;
            kept.push(comps[i].clone());
            proof {
                assert(kept@.map_values(|p: String| p@) =~= old_kept.map_values(
                    |p: String| p@,
                ).push(views[i as int]));
            }
        }
        i = i + 1;
    }
    proof {
        assert(views.take(n as int) =~= views);
    }
    join_char(&kept, '.')
}

} // verus!
