//! What holds of joined paths and their components.

use vstd::prelude::*;

use crate::path;
use crate::path::SEPARATOR;
use crate::scan;

verus! {

/// The pieces of two texts with a separator between them are the pieces of the
/// first and then those of the second.
pub proof fn lemma_pieces_split(a: Seq<u8>, b: Seq<u8>)
    ensures
        path::pieces(a.push(SEPARATOR) + b) == path::pieces(a) + path::pieces(b),
    decreases a.len(),
{
    let whole = a.push(SEPARATOR) + b;
    let i = scan::position(a, SEPARATOR);
    scan::lemma_position(a, SEPARATOR);
    assert forall|j: int| 0 <= j < i implies whole[j] != SEPARATOR by {
        assert(whole[j] == a[j]);
    }
    scan::lemma_position_is(whole, SEPARATOR, i);
    assert(path::head(whole) =~= path::head(a));
    if i < a.len() {
        lemma_pieces_split(a.skip(i + 1), b);
        assert(whole.skip(i + 1) =~= a.skip(i + 1).push(SEPARATOR) + b);
    } else {
        assert(whole.skip(i + 1) =~= b);
    }
    assert(path::pieces(whole) =~= path::pieces(a) + path::pieces(b));
}

/// Nothing has no pieces.
proof fn lemma_pieces_empty()
    ensures
        path::pieces(Seq::empty()) == Seq::<Seq<u8>>::empty(),
{
}

/// The pieces of a path with a relative one put under it.
pub proof fn lemma_pieces_join(base: Seq<u8>, tail: Seq<u8>)
    requires
        !path::is_absolute(tail),
    ensures
        path::pieces(path::join(base, tail)) == path::pieces(base) + path::pieces(tail),
{
    lemma_pieces_empty();
    if base.len() == 0 {
        assert(base + tail =~= tail);
        assert(base =~= Seq::empty());
        assert(path::pieces(base) + path::pieces(tail) =~= path::pieces(tail));
    } else if base.last() != SEPARATOR {
        lemma_pieces_split(base, tail);
    } else {
        let front = base.drop_last();
        assert(base =~= front.push(SEPARATOR) + Seq::<u8>::empty());
        assert(base + tail =~= front.push(SEPARATOR) + tail);
        lemma_pieces_split(front, tail);
        lemma_pieces_split(front, Seq::empty());
        assert(path::pieces(front) + Seq::<Seq<u8>>::empty() =~= path::pieces(front));
    }
}

/// Putting a relative path under one that is not empty adds its pieces, and
/// nothing else, to the components.
pub proof fn lemma_components_join(base: Seq<u8>, tail: Seq<u8>)
    requires
        base.len() > 0,
        !path::is_absolute(tail),
    ensures
        path::components(path::join(base, tail)) == path::components(base) + path::pieces(tail),
{
    let whole = path::join(base, tail);
    let i = scan::position(base, SEPARATOR);
    scan::lemma_position(base, SEPARATOR);
    assert forall|j: int| 0 <= j < base.len() implies whole[j] == base[j] by {}
    scan::lemma_position_is(whole, SEPARATOR, i);
    assert(path::head(whole) =~= path::head(base));
    lemma_pieces_join(base, tail);
    assert(path::components(whole) =~= path::components(base) + path::pieces(tail));
}

/// Trimming blank pieces in front keeps the others.
proof fn lemma_trim_left(p: Seq<u8>)
    ensures
        path::pieces(path::trim_left(p)) == path::pieces(p),
        path::trim_left(p).len() > 0 ==> !path::is_blank(path::head(path::trim_left(p))),
    decreases p.len(),
{
    scan::lemma_position(p, SEPARATOR);
    let i = scan::position(p, SEPARATOR);
    lemma_pieces_empty();
    if p.len() > 0 && path::is_blank(path::head(p)) && i < p.len() {
        lemma_trim_left(p.skip(i + 1));
    } else if p.len() == 0 {
        assert(p =~= Seq::empty());
    }
}

/// The last piece starts behind the last separator.
pub proof fn lemma_last_start(p: Seq<u8>)
    ensures
        0 <= path::last_start(p) <= p.len(),
        path::last_start(p) > 0 ==> p[path::last_start(p) - 1] == SEPARATOR,
        forall|j: int| path::last_start(p) <= j < p.len() ==> p[j] != SEPARATOR,
    decreases p.len(),
{
    if p.len() > 0 && p.last() != SEPARATOR {
        lemma_last_start(p.drop_last());
        let front = p.drop_last();
        assert forall|j: int| path::last_start(p) <= j < p.len() implies p[j] != SEPARATOR by {
            if j < front.len() {
                assert(front[j] == p[j]);
            }
        }
    }
}

/// A text without a separator is one piece, if it is not blank.
pub proof fn lemma_pieces_single(p: Seq<u8>)
    requires
        forall|j: int| 0 <= j < p.len() ==> p[j] != SEPARATOR,
    ensures
        path::head(p) == p,
        path::pieces(p) == (if path::is_blank(p) {
            Seq::<Seq<u8>>::empty()
        } else {
            seq![p]
        }),
{
    scan::lemma_position_is(p, SEPARATOR, p.len() as int);
    assert(path::head(p) =~= p);
    assert(path::pieces(p) =~= (if path::is_blank(p) {
        Seq::<Seq<u8>>::empty()
    } else {
        seq![p]
    }));
}

/// Trimming blank pieces at the end keeps the others, and does not reach the
/// first piece when that one is not blank.
proof fn lemma_trim_right(p: Seq<u8>)
    ensures
        path::pieces(path::trim_right(p)) == path::pieces(p),
        !path::is_blank(path::head(p)) ==> path::head(path::trim_right(p)) == path::head(p),
    decreases p.len(),
{
    lemma_last_start(p);
    lemma_pieces_empty();
    let i = path::last_start(p);
    if p.len() == 0 {
    } else if path::is_blank(p.skip(i)) {
        lemma_pieces_single(p.skip(i));
        if i == 0 {
            assert(p.skip(0) =~= p);
        } else {
            let front = p.take(i - 1);
            assert(p =~= front.push(SEPARATOR) + p.skip(i));
            lemma_pieces_split(front, p.skip(i));
            assert(path::pieces(front) + Seq::<Seq<u8>>::empty() =~= path::pieces(front));
            lemma_trim_right(front);
            if !path::is_blank(path::head(p)) {
                scan::lemma_position(p, SEPARATOR);
                let k = scan::position(p, SEPARATOR);
                assert(k <= i - 1);
                assert forall|j: int| 0 <= j < k implies front[j] != SEPARATOR by {}
                scan::lemma_position_is(front, SEPARATOR, k);
                assert(path::head(front) =~= path::head(p));
            }
        }
    }
}

/// Below the root directory an absolute path has the components it had, and it
/// is relative there.
pub proof fn lemma_below_root(p: Seq<u8>)
    requires
        path::is_absolute(p),
    ensures
        !path::is_absolute(path::below_root(p)),
        path::names(path::below_root(p)) == path::names(p),
        path::pieces(path::below_root(p)) == path::pieces(p),
{
    let rest = p.skip(1);
    let left = path::trim_left(rest);
    lemma_trim_left(rest);
    lemma_trim_right(left);
    scan::lemma_position_is(p, SEPARATOR, 0);
    assert(path::head(p) =~= Seq::empty());
    let below = path::below_root(p);
    if left.len() == 0 {
        assert(left =~= Seq::empty());
        assert(below =~= Seq::empty());
        assert(path::head(below) =~= Seq::empty());
    } else {
        assert(!path::is_blank(path::head(below)));
        if path::is_absolute(below) {
            scan::lemma_position_is(below, SEPARATOR, 0);
            assert(path::head(below) =~= Seq::empty());
        }
    }
}

/// A piece is not blank and holds no separator.
pub proof fn lemma_pieces(p: Seq<u8>)
    ensures
        forall|k: int| #![trigger path::pieces(p)[k]]
            0 <= k < path::pieces(p).len() ==> {
                &&& !path::is_blank(path::pieces(p)[k])
                &&& forall|j: int| 0 <= j < path::pieces(p)[k].len() ==> path::pieces(p)[k][j]
                    != SEPARATOR
            },
    decreases p.len(),
{
    scan::lemma_position(p, SEPARATOR);
    let i = scan::position(p, SEPARATOR);
    if i < p.len() {
        lemma_pieces(p.skip(i + 1));
    }
    let rest = if i < p.len() {
        path::pieces(p.skip(i + 1))
    } else {
        Seq::empty()
    };
    let all = path::pieces(p);
    assert forall|k: int| #![trigger all[k]] 0 <= k < all.len() implies {
        &&& !path::is_blank(all[k])
        &&& forall|j: int| 0 <= j < all[k].len() ==> all[k][j] != SEPARATOR
    } by {
        if path::is_blank(path::head(p)) {
            assert(all[k] == rest[k]);
        } else if k > 0 {
            assert(all[k] == rest[k - 1]);
        } else {
            assert(all[k] == path::head(p));
        }
    }
}

/// A component name holds no separator and is not empty, and it is `.` only in
/// front of a relative path.
pub proof fn lemma_name(p: Seq<u8>, k: int)
    requires
        0 <= k < path::names(p).len(),
    ensures
        path::names(p)[k].len() > 0,
        forall|j: int| 0 <= j < path::names(p)[k].len() ==> path::names(p)[k][j] != SEPARATOR,
        path::names(p)[k] == path::dot() ==> k == 0 && path::head(p) == path::dot(),
{
    lemma_pieces(p);
    if path::head(p) == path::dot() {
        if k > 0 {
            assert(path::names(p)[k] == path::pieces(p)[k - 1]);
        }
    } else {
        assert(path::names(p)[k] == path::pieces(p)[k]);
    }
}

/// Those of the first `k` names of a path that say something: all but the `.` in
/// front.
pub open spec fn telling(p: Seq<u8>, k: int) -> Seq<Seq<u8>> {
    if path::head(p) == path::dot() && k > 0 {
        path::names(p).take(k).skip(1)
    } else {
        path::names(p).take(k)
    }
}

/// The components of the directory that `k` names of `cgroup` lead to.
proof fn lemma_walk(root: Seq<u8>, cgroup: Seq<u8>, k: int)
    requires
        0 <= k <= path::names(cgroup).len(),
    ensures
        root.len() > 0 || k > 0 ==> path::walk(root, path::names(cgroup), k).len() > 0,
        root.len() > 0 ==> path::components(path::walk(root, path::names(cgroup), k))
            == path::components(root) + telling(cgroup, k),
        root.len() == 0 ==> path::components(path::walk(root, path::names(cgroup), k))
            == path::names(cgroup).take(k),
    decreases k,
{
    let steps = path::names(cgroup);
    let here = path::walk(root, steps, k);
    if k == 0 {
        assert(path::components(root) + telling(cgroup, 0) =~= path::components(root));
        if root.len() == 0 {
            assert(root =~= Seq::empty());
            assert(path::head(root) =~= Seq::empty());
            assert(path::components(root) =~= steps.take(0));
        }
    } else {
        let before = path::walk(root, steps, k - 1);
        let name = steps[k - 1];
        lemma_walk(root, cgroup, k - 1);
        lemma_name(cgroup, k - 1);
        lemma_pieces_single(name);
        assert(!path::is_absolute(name));
        if before.len() > 0 {
            lemma_components_join(before, name);
            if root.len() > 0 {
                assert(path::components(before) + path::pieces(name) =~= path::components(root)
                    + telling(cgroup, k));
            } else {
                assert(steps.take(k) =~= steps.take(k - 1).push(name));
                assert(path::components(here) =~= steps.take(k));
            }
        } else {
            assert(here =~= name);
            assert(path::components(here) =~= steps.take(1));
        }
    }
}

/// With `k` names of `cgroup` one gets deeper than `root` by those names, where a
/// `.` in front leads nowhere.
pub proof fn law_walk_goes_down(root: Seq<u8>, cgroup: Seq<u8>, k: int)
    requires
        0 <= k <= path::names(cgroup).len(),
    ensures
        path::is_absolute(path::walk(root, path::names(cgroup), k)) == path::is_absolute(root),
        path::pieces(path::walk(root, path::names(cgroup), k)) == path::pieces(root) + telling(
            cgroup,
            k,
        ),
    decreases k,
{
    if k == 0 {
        assert(path::pieces(root) + telling(cgroup, 0) =~= path::pieces(root));
    } else {
        let before = path::walk(root, path::names(cgroup), k - 1);
        let name = path::names(cgroup)[k - 1];
        law_walk_goes_down(root, cgroup, k - 1);
        lemma_name(cgroup, k - 1);
        lemma_pieces_single(name);
        lemma_pieces_join(before, name);
        assert(path::pieces(before) + path::pieces(name) =~= path::pieces(root) + telling(
            cgroup,
            k,
        ));
    }
}

/// Walking down from `root` by every name of `cgroup` ends in the directory
/// that `cgroup` joined to `root` names: both have the same components.
pub proof fn law_walk_reaches_full_path(root: Seq<u8>, cgroup: Seq<u8>)
    ensures
        path::components(path::walk(root, path::names(cgroup), path::names(cgroup).len() as int))
            == path::components(path::join_safely(root, cgroup)),
{
    let steps = path::names(cgroup);
    lemma_walk(root, cgroup, steps.len() as int);
    assert(steps.take(steps.len() as int) =~= steps);
    let tail = if path::is_absolute(cgroup) {
        lemma_below_root(cgroup);
        path::below_root(cgroup)
    } else {
        cgroup
    };
    assert(path::join_safely(root, cgroup) == path::join(root, tail));
    if root.len() > 0 {
        lemma_components_join(root, tail);
        assert(telling(cgroup, steps.len() as int) =~= path::pieces(cgroup));
    } else {
        assert(root + tail =~= tail);
    }
}

/// An absolute `cgroup` never leads out of `root` by replacing it: the joined
/// path starts with the bytes of `root`.
pub proof fn law_join_safely_keeps_root(root: Seq<u8>, cgroup: Seq<u8>)
    ensures
        path::join_safely(root, cgroup).len() >= root.len(),
        path::join_safely(root, cgroup).take(root.len() as int) == root,
{
    if path::is_absolute(cgroup) {
        lemma_below_root(cgroup);
    }
    assert(path::join_safely(root, cgroup).take(root.len() as int) =~= root);
}

/// What is joined has the pieces of `root` and then those of `cgroup`.
pub proof fn law_join_safely_adds_pieces(root: Seq<u8>, cgroup: Seq<u8>)
    ensures
        path::pieces(path::join_safely(root, cgroup)) == path::pieces(root) + path::pieces(cgroup),
{
    if path::is_absolute(cgroup) {
        lemma_below_root(cgroup);
        lemma_pieces_join(root, path::below_root(cgroup));
    } else {
        lemma_pieces_join(root, cgroup);
    }
}

/// Different numbers of names, at least one each, lead to directories with
/// different numbers of components.
pub proof fn law_walk_deepens(root: Seq<u8>, cgroup: Seq<u8>, j: int, k: int)
    requires
        1 <= j < k <= path::names(cgroup).len(),
    ensures
        path::walk(root, path::names(cgroup), j).len() > 0,
        path::walk(root, path::names(cgroup), k).len() > 0,
        path::components(path::walk(root, path::names(cgroup), j)).len() < path::components(
            path::walk(root, path::names(cgroup), k),
        ).len(),
{
    lemma_walk(root, cgroup, j);
    lemma_walk(root, cgroup, k);
}

/// A file right in a directory has the pieces of the directory and its name.
pub proof fn lemma_pieces_of_file(dir: Seq<u8>, name: Seq<u8>)
    requires
        !path::is_blank(name),
        forall|j: int| 0 <= j < name.len() ==> name[j] != SEPARATOR,
    ensures
        path::pieces(path::join(dir, name)) == path::pieces(dir).push(name),
{
    lemma_pieces_single(name);
    lemma_pieces_join(dir, name);
    assert(path::pieces(dir) + path::pieces(name) =~= path::pieces(dir).push(name));
}

} // verus!
