//! Paths as text. A path is read as a list of components, the way Unix paths
//! are: the pieces between `/`, without the empty ones and without `.` except
//! in first place, and with a root marker in front when the path starts with `/`.
//! Nothing here touches the file system.

use crate::text::{chars_eq, chars_of, join_with, push_chars, split_chars, split_on, views_of};
use vstd::prelude::*;
use vstd::string::*;

verus! {

/// The component `.`.
pub open spec fn cur_dir() -> Seq<char> {
    seq!['.']
}

/// The component `..`.
pub open spec fn parent_dir() -> Seq<char> {
    seq!['.', '.']
}

/// The component that stands for the root of an absolute path.
pub open spec fn root_marker() -> Seq<char> {
    seq!['/']
}

/// A component that names a file or directory: not the root, `.` or `..`.
pub open spec fn is_normal(c: Seq<char>) -> bool {
    c != root_marker() && c != cur_dir() && c != parent_dir()
}

/// Whether the path starts at the root.
pub open spec fn is_absolute(p: Seq<char>) -> bool {
    p.len() > 0 && p[0] == '/'
}

/// The pieces of a path that count as components: the non-empty ones, `.`
/// only where it is the first piece.
pub open spec fn kept_segments(segs: Seq<Seq<char>>) -> Seq<Seq<char>>
    decreases segs.len(),
{
    if segs.len() == 0 {
        Seq::<Seq<char>>::empty()
    } else {
        let before = kept_segments(segs.drop_last());
        let s = segs.last();
        if s.len() == 0 || (s == cur_dir() && segs.len() > 1) {
            before
        } else {
            before.push(s)
        }
    }
}

/// The components of a path, the root marker first where it is absolute.
pub open spec fn components(p: Seq<char>) -> Seq<Seq<char>> {
    if is_absolute(p) {
        seq![root_marker()] + kept_segments(split_on(p, '/'))
    } else {
        kept_segments(split_on(p, '/'))
    }
}

/// The path that a list of components spells.
pub open spec fn components_text(cs: Seq<Seq<char>>) -> Seq<char> {
    if cs.len() > 0 && cs[0] == root_marker() {
        root_marker() + join_with(cs.skip(1), '/')
    } else {
        join_with(cs, '/')
    }
}

/// What is left of `path` after the components of `base`, where `base` is a
/// prefix of it component by component.
pub open spec fn stripped(path: Seq<char>, base: Seq<char>) -> Option<Seq<Seq<char>>> {
    let pc = components(path);
    let bc = components(base);
    if bc.len() <= pc.len() && pc.take(bc.len() as int) == bc {
        Some(pc.skip(bc.len() as int))
    } else {
        None
    }
}

/// Whether `path` lies at or under `root`, component by component.
pub open spec fn within(path: Seq<char>, root: Seq<char>) -> bool {
    stripped(path, root) is Some
}

fn is_cur_dir(c: &Vec<char>) -> (r: bool)
    ensures
        r == (c@ == cur_dir()),
{
    let r = c.len() == 1 && c[0] == '.';
    proof {
        if r {
            assert(c@ =~= cur_dir());
        }
    }
    r
}

fn is_parent_dir(c: &Vec<char>) -> (r: bool)
    ensures
        r == (c@ == parent_dir()),
{
    let r = c.len() == 2 && c[0] == '.' && c[1] == '.';
    proof {
        if r {
            assert(c@ =~= parent_dir());
        }
    }
    r
}

fn is_root_marker(c: &Vec<char>) -> (r: bool)
    ensures
        r == (c@ == root_marker()),
{
    let r = c.len() == 1 && c[0] == '/';
    proof {
        if r {
            assert(c@ =~= root_marker());
        }
    }
    r
}

/// Whether a component names a file or directory.
pub fn component_is_normal(c: &Vec<char>) -> (r: bool)
    ensures
        r == is_normal(c@),
{
    !is_root_marker(c) && !is_cur_dir(c) && !is_parent_dir(c)
}

/// The components of `p`.
pub fn path_components(p: &str) -> (out: Vec<Vec<char>>)
    ensures
        views_of(out@) == components(p@),
{
    let cs = chars_of(p);
    let segs = split_chars(&cs, '/');
    let mut out: Vec<Vec<char>> = Vec::new();
    let absolute = cs.len() > 0 && cs[0] == '/';
    if absolute {
        let mut root: Vec<char> = Vec::new();
        root.push('/');
        assert(root@ =~= root_marker());
        out.push(root);
    }
    let ghost lead = views_of(out@);
    let mut i: usize = 0;
    proof {
        assert(views_of(segs@).take(0) =~= Seq::<Seq<char>>::empty());
        assert(lead =~= if absolute {
            seq![root_marker()]
        } else {
            Seq::<Seq<char>>::empty()
        });
        assert(lead + Seq::<Seq<char>>::empty() =~= lead);
    }
    while i < segs.len()
        invariant
            i <= segs.len(),
            views_of(out@) == lead + kept_segments(views_of(segs@).take(i as int)),
        decreases segs.len() - i,
    {
        let ghost all = views_of(segs@);
        let ghost done = views_of(out@);
        proof {
            assert(all.take(i + 1).drop_last() == all.take(i as int));
            assert(all.take(i + 1).last() == segs@[i as int]@);
        }
        let keep = segs[i].len() > 0 && !(is_cur_dir(&segs[i]) && i > 0);
        if keep {
            out.push(segs[i].clone());
            proof {
                assert(views_of(out@) =~= done.push(segs@[i as int]@));
                assert(lead + kept_segments(all.take(i as int)).push(segs@[i as int]@) =~= (lead
                    + kept_segments(all.take(i as int))).push(segs@[i as int]@));
            }
        }
        i += 1;
    }
    proof {
        assert(views_of(segs@).take(segs.len() as int) == views_of(segs@));
    }
    out
}

/// The path that the components `cs[from..]` spell.
pub fn components_to_text(cs: &Vec<Vec<char>>, from: usize) -> (out: String)
    requires
        from <= cs.len(),
    ensures
        out@ == components_text(views_of(cs@).skip(from as int)),
{
    let ghost rest = views_of(cs@).skip(from as int);
    let mut out = String::new();
    let mut i: usize = from;
    let rooted = from < cs.len() && is_root_marker(&cs[from]);
    if rooted {
        out.push('/');
        i += 1;
    }
    let start = i;
    let ghost body = views_of(cs@).skip(start as int);
    proof {
        assert(out@ =~= if rooted {
            root_marker()
        } else {
            Seq::<char>::empty()
        });
        if rooted {
            assert(rest[0] == cs@[from as int]@);
            assert(rest.skip(1) =~= body);
        } else {
            assert(rest =~= body);
            if from < cs.len() {
                assert(rest[0] == cs@[from as int]@);
            }
        }
        assert(body.take(0) =~= Seq::<Seq<char>>::empty());
    }
    let ghost lead = out@;
    while i < cs.len()
        invariant
            start <= i <= cs.len(),
            body == views_of(cs@).skip(start as int),
            out@ == lead + join_with(body.take(i - start), '/'),
        decreases cs.len() - i,
    {
        if i > start {
            out.push('/');
        }
        push_chars(&mut out, &cs[i], 0, cs[i].len());
        proof {
            let k = i - start;
            let piece = cs@[i as int]@;
            assert(piece.subrange(0, piece.len() as int) == piece);
            assert(body.take(k + 1).drop_last() == body.take(k));
            assert(body.take(k + 1).last() == piece);
            if k == 0 {
                assert(body.take(1)[0] == piece);
                assert(join_with(body.take(0), '/') =~= Seq::<char>::empty());
                assert(out@ =~= lead + piece);
            } else {
                assert(out@ =~= lead + (join_with(body.take(k), '/').push('/') + piece));
            }
        }
        i += 1;
    }
    proof {
        assert(body.take(cs.len() - start) == body);
    }
    out
}

/// Where the rest begins if the components `base` are a prefix of `path`.
pub fn strip_components(path: &Vec<Vec<char>>, base: &Vec<Vec<char>>) -> (r: Option<usize>)
    ensures
        r is Some <==> (base.len() <= path.len() && views_of(path@).take(base.len() as int)
            == views_of(base@)),
        r matches Some(n) ==> n == base.len(),
{
    if base.len() > path.len() {
        return None;
    }
    let ghost pv = views_of(path@);
    let ghost bv = views_of(base@);
    let mut i: usize = 0;
    while i < base.len()
        invariant
            i <= base.len() <= path.len(),
            pv == views_of(path@),
            bv == views_of(base@),
            pv.take(i as int) == bv.take(i as int),
        decreases base.len() - i,
    {
        if !chars_eq(&path[i], &base[i]) {
            proof {
                assert(pv.take(base.len() as int)[i as int] == path@[i as int]@);
                assert(bv[i as int] == base@[i as int]@);
            }
            return None;
        }
        proof {
            assert(pv.take(i + 1) =~= pv.take(i as int).push(path@[i as int]@));
            assert(bv.take(i + 1) =~= bv.take(i as int).push(base@[i as int]@));
        }
        i += 1;
    }
    proof {
        assert(bv.take(base.len() as int) == bv);
    }
    Some(base.len())
}

/// Whether `path` lies at or under `root`, compared component by component.
/// A symbolic link is not followed: the caller passes canonical paths.
pub fn path_within(path: &str, root: &str) -> (r: bool)
    ensures
        r == within(path@, root@),
{
    let pc = path_components(path);
    let bc = path_components(root);
    strip_components(&pc, &bc).is_some()
}

/// The path without its last component; `None` for the empty path and for
/// the root.
pub open spec fn parent_text(p: Seq<char>) -> Option<Seq<char>> {
    let cs = components(p);
    if cs.len() == 0 || cs.last() == root_marker() {
        None
    } else {
        Some(components_text(cs.drop_last()))
    }
}

fn components_prefix_text(cs: &Vec<Vec<char>>, n: usize) -> (out: String)
    requires
        n <= cs.len(),
    ensures
        out@ == components_text(views_of(cs@).take(n as int)),
{
    let mut head: Vec<Vec<char>> = Vec::new();
    let mut i: usize = 0;
    while i < n
        invariant
            i <= n <= cs.len(),
            views_of(head@) == views_of(cs@).take(i as int),
        decreases n - i,
    {
        head.push(cs[i].clone());
        proof {
            assert(views_of(head@) =~= views_of(cs@).take(i as int).push(cs@[i as int]@));
            assert(views_of(cs@).take(i + 1) =~= views_of(cs@).take(i as int).push(cs@[i as int]@));
        }
        i += 1;
    }
    let out = components_to_text(&head, 0);
    proof {
        assert(views_of(head@).skip(0) == views_of(head@));
    }
    out
}

/// The parent of `p`, as `parent_text` defines it.
pub fn parent_of(p: &str) -> (r: Option<String>)
    ensures
        r is Some <==> parent_text(p@) is Some,
        r matches Some(s) ==> Some(s@) == parent_text(p@),
{
    let cs = path_components(p);
    if cs.len() == 0 || is_root_marker(&cs[cs.len() - 1]) {
        proof {
            if cs.len() > 0 {
                assert(views_of(cs@).last() == cs@[cs.len() - 1]@);
            }
        }
        return None;
    }
    proof {
        assert(views_of(cs@).last() == cs@[cs.len() - 1]@);
        assert(views_of(cs@).drop_last() == views_of(cs@).take(cs.len() - 1));
    }
    Some(components_prefix_text(&cs, cs.len() - 1))
}

/// The last component, where it names a file or directory.
pub open spec fn file_name_text(p: Seq<char>) -> Option<Seq<char>> {
    let cs = components(p);
    if cs.len() > 0 && is_normal(cs.last()) {
        Some(cs.last())
    } else {
        None
    }
}

/// The index of the last `.` in `name`, if it has one.
pub open spec fn last_dot(name: Seq<char>) -> Option<int>
    decreases name.len(),
{
    if name.len() == 0 {
        None
    } else if name.last() == '.' {
        Some(name.len() - 1)
    } else {
        last_dot(name.drop_last())
    }
}

/// The extension of a file name: what follows its last `.`, unless that `.`
/// is the first character or there is none.
pub open spec fn name_extension(name: Seq<char>) -> Option<Seq<char>> {
    match last_dot(name) {
        Some(i) => if i == 0 {
            None
        } else {
            Some(name.skip(i + 1))
        },
        None => None,
    }
}

/// The stem of a file name: what precedes its last `.`, or the whole name
/// where that `.` is the first character or there is none.
pub open spec fn name_stem(name: Seq<char>) -> Seq<char> {
    match last_dot(name) {
        Some(i) => if i == 0 {
            name
        } else {
            name.take(i)
        },
        None => name,
    }
}

/// The extension of the file that `p` names, if it has one.
pub open spec fn extension_text(p: Seq<char>) -> Option<Seq<char>> {
    match file_name_text(p) {
        Some(name) => name_extension(name),
        None => None,
    }
}

/// The stem of the file that `p` names, if it names one.
pub open spec fn file_stem_text(p: Seq<char>) -> Option<Seq<char>> {
    match file_name_text(p) {
        Some(name) => Some(name_stem(name)),
        None => None,
    }
}

fn find_last_dot(name: &Vec<char>) -> (r: Option<usize>)
    ensures
        r is Some <==> last_dot(name@) is Some,
        r matches Some(i) ==> last_dot(name@) == Some(i as int) && i < name.len(),
{
    let mut n: usize = name.len();
    proof {
        assert(name@.take(n as int) == name@);
    }
    while n > 0
        invariant
            n <= name.len(),
            last_dot(name@) == last_dot(name@.take(n as int)),
        decreases n,
    {
        proof {
            assert(name@.take(n as int).drop_last() == name@.take(n - 1));
            assert(name@.take(n as int).last() == name@[n - 1]);
        }
        if name[n - 1] == '.' {
            return Some(n - 1);
        }
        n -= 1;
    }
    None
}

/// The last component of `p`, where it names a file or directory.
pub fn file_name_of(p: &str) -> (r: Option<Vec<char>>)
    ensures
        r is Some <==> file_name_text(p@) is Some,
        r matches Some(n) ==> Some(n@) == file_name_text(p@),
{
    let cs = path_components(p);
    if cs.len() == 0 {
        return None;
    }
    proof {
        assert(views_of(cs@).last() == cs@[cs.len() - 1]@);
    }
    if component_is_normal(&cs[cs.len() - 1]) {
        Some(cs[cs.len() - 1].clone())
    } else {
        None
    }
}

/// The extension of the file that `p` names, if it has one.
pub fn extension_of(p: &str) -> (r: Option<String>)
    ensures
        r is Some <==> extension_text(p@) is Some,
        r matches Some(e) ==> Some(e@) == extension_text(p@),
{
    match file_name_of(p) {
        Some(name) => match find_last_dot(&name) {
            Some(i) => {
                if i == 0 {
                    None
                } else {
                    let mut out = String::new();
                    push_chars(&mut out, &name, i + 1, name.len());
                    proof {
                        assert(name@.subrange(i + 1, name.len() as int) == name@.skip(i + 1));
                    }
                    Some(out)
                }
            },
            None => None,
        },
        None => None,
    }
}

/// The stem of the file that `p` names, if it names one.
pub fn file_stem_of(p: &str) -> (r: Option<String>)
    ensures
        r is Some <==> file_stem_text(p@) is Some,
        r matches Some(e) ==> Some(e@) == file_stem_text(p@),
{
    match file_name_of(p) {
        Some(name) => {
            let end = match find_last_dot(&name) {
                Some(i) => if i == 0 {
                    name.len()
                } else {
                    i
                },
                None => name.len(),
            };
            let mut out = String::new();
            push_chars(&mut out, &name, 0, end);
            proof {
                assert(name@.subrange(0, end as int) == name@.take(end as int));
                assert(name@.take(name.len() as int) == name@);
            }
            Some(out)
        },
        None => None,
    }
}


/// `rel` appended to `base` as a path: `rel` itself where it is absolute, else
/// `base`, a `/` unless `base` is empty or ends in one, and `rel`.
pub open spec fn joined(base: Seq<char>, rel: Seq<char>) -> Seq<char> {
    if is_absolute(rel) {
        rel
    } else if base.len() == 0 || base.last() == '/' {
        base + rel
    } else {
        base + seq!['/'] + rel
    }
}

/// Appends `rel` to `base` as a path.
pub fn join_path(base: &str, rel: &str) -> (out: String)
    ensures
        out@ == joined(base@, rel@),
{
    let r = chars_of(rel);
    if r.len() > 0 && r[0] == '/' {
        return rel.to_owned();
    }
    let b = chars_of(base);
    let mut out = base.to_owned();
    if b.len() > 0 && b[b.len() - 1] != '/' {
        out.push('/');
    }
    out.append(rel);
    proof {
        assert(out@ =~= joined(base@, rel@));
    }
    out
}

} // verus!
