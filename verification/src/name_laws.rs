//! Where paths lead, stated by their bytes.
//!
//! In the bytes of a path, 0x2f is the `/` that separates and 0x2e is the `.` of
//! the current directory.

use vstd::prelude::*;

use crate::manager::Manager;
use crate::path;
use crate::path_laws;
use crate::scan;

verus! {

/// A path with a separator behind it, unless it is empty or has one there.
pub open spec fn opened(base: Seq<u8>) -> Seq<u8> {
    if base.len() == 0 || base[base.len() - 1] == 0x2f {
        base
    } else {
        base.push(0x2f)
    }
}

/// A path starts at the root of the file system exactly when its first byte is a
/// separator.
pub proof fn law_absolute_by_the_first_byte(p: Seq<u8>)
    ensures
        path::is_absolute(p) <==> p.len() > 0 && p[0] == 0x2f,
{
}

/// Joining keeps the bytes of both paths, with one separator between them,
/// unless the second starts with a separator: it then stands for itself.
pub proof fn law_join_keeps_the_bytes(base: Seq<u8>, tail: Seq<u8>)
    ensures
        tail.len() > 0 && tail[0] == 0x2f ==> path::join(base, tail) == tail,
        tail.len() == 0 || tail[0] != 0x2f ==> path::join(base, tail) == opened(base) + tail,
{
}

/// What stands between two separators is one piece, as it is, unless it has no
/// bytes or is a single `.`: no other piece is ever left out.
pub proof fn law_only_empty_and_dot_say_nothing(p: Seq<u8>)
    requires
        forall|j: int| 0 <= j < p.len() ==> p[j] != 0x2f,
    ensures
        path::pieces(p) == (if p.len() == 0 || (p.len() == 1 && p[0] == 0x2e) {
            Seq::<Seq<u8>>::empty()
        } else {
            seq![p]
        }),
{
    path_laws::lemma_pieces_single(p);
    if p.len() == 1 && p[0] == 0x2e {
        assert(p =~= path::dot());
    }
}

/// The pieces of a path are those in front of a separator and then those behind
/// it.
pub proof fn law_pieces_are_kept_apart(a: Seq<u8>, b: Seq<u8>)
    ensures
        path::pieces(a.push(0x2f) + b) == path::pieces(a) + path::pieces(b),
{
    path_laws::lemma_pieces_split(a, b);
}

/// The names of a path are its pieces, behind a `.` where the path is one or
/// starts with one and a separator.
pub proof fn law_names_are_the_pieces(p: Seq<u8>)
    ensures
        path::names(p) == (if p.len() > 0 && p[0] == 0x2e && (p.len() == 1 || p[1] == 0x2f) {
            seq![seq![0x2eu8]] + path::pieces(p)
        } else {
            path::pieces(p)
        }),
{
    scan::lemma_position(p, 0x2f);
    let i = scan::position(p, 0x2f);
    if p.len() > 0 && p[0] == 0x2e && (p.len() == 1 || p[1] == 0x2f) {
        scan::lemma_position_is(p, 0x2f, 1);
        assert(path::head(p) =~= path::dot());
    } else if path::head(p) == path::dot() {
        assert(path::head(p).len() == i);
        assert(path::head(p)[0] == p[0]);
    }
}

/// Each directory on the way is the one above it, a separator unless there is
/// one already, and the next name, from the first path on.
pub proof fn law_each_name_leads_one_down(root: Seq<u8>, cgroup: Seq<u8>, k: int)
    requires
        1 <= k <= path::names(cgroup).len(),
    ensures
        path::walk(root, path::names(cgroup), 0) == root,
        path::walk(root, path::names(cgroup), k) == opened(
            path::walk(root, path::names(cgroup), k - 1),
        ) + path::names(cgroup)[k - 1],
{
    path_laws::lemma_name(cgroup, k - 1);
}

/// Whether a text has a piece that says nothing at one of its ends: it starts
/// or ends with a separator, or its first or last piece is a single `.`.
pub open spec fn blank_at_an_end(t: Seq<u8>) -> bool {
    let n = t.len() as int;
    &&& n > 0
    &&& {
        ||| t[0] == 0x2f
        ||| t[n - 1] == 0x2f
        ||| t[0] == 0x2e && (n == 1 || t[1] == 0x2f)
        ||| n > 1 && t[n - 1] == 0x2e && t[n - 2] == 0x2f
    }
}

/// A text that has no such piece is not trimmed.
proof fn lemma_not_trimmed(t: Seq<u8>)
    requires
        !blank_at_an_end(t),
    ensures
        path::trim_right(path::trim_left(t)) == t,
{
    if t.len() > 0 {
        let n = t.len() as int;
        scan::lemma_position(t, 0x2f);
        let i = scan::position(t, 0x2f);
        if path::head(t) == path::dot() {
            assert(path::head(t).len() == i);
            assert(path::head(t)[0] == t[0]);
        }
        assert(!path::is_blank(path::head(t)));
        path_laws::lemma_last_start(t);
        let j = path::last_start(t);
        if t.skip(j) == path::dot() {
            assert(t.skip(j).len() == 1);
            assert(t.skip(j)[0] == t[n - 1]);
        }
        assert(!path::is_blank(t.skip(j)));
    }
}

/// The cgroup is at the mount point, a separator, and the path of the cgroup,
/// byte for byte. The separator in front of an absolute one is left out.
pub proof fn law_full_path_keeps_the_bytes(m: Manager, t: Seq<u8>)
    ensures
        (m.cgroup().len() == 0 || m.cgroup()[0] != 0x2f) ==> m.full() == opened(m.root())
            + m.cgroup(),
        m.cgroup() == seq![0x2fu8] + t && !blank_at_an_end(t) ==> m.full() == opened(m.root()) + t,
{
    if m.cgroup() == seq![0x2fu8] + t && !blank_at_an_end(t) {
        assert(m.cgroup().skip(1) =~= t);
        assert(m.cgroup()[0] == 0x2f);
        lemma_not_trimmed(t);
    }
}

/// What a separator behind `u`, and then nothing or a `.`, does to trimming it.
proof fn lemma_trim_left_end(u: Seq<u8>, dotted: bool)
    ensures
        ({
            let z = if dotted {
                seq![0x2fu8, 0x2eu8]
            } else {
                seq![0x2fu8]
            };
            path::trim_left(u + z) == if path::trim_left(u).len() == 0 {
                Seq::<u8>::empty()
            } else {
                path::trim_left(u) + z
            }
        }),
    decreases u.len(),
{
    let z = if dotted {
        seq![0x2fu8, 0x2eu8]
    } else {
        seq![0x2fu8]
    };
    let whole = u + z;
    scan::lemma_position(u, 0x2f);
    let i = scan::position(u, 0x2f);
    assert forall|j: int| 0 <= j < i implies whole[j] != 0x2f by {
        assert(whole[j] == u[j]);
    }
    scan::lemma_position_is(whole, 0x2f, i);
    assert(path::head(whole) =~= path::head(u));
    if path::is_blank(path::head(u)) {
        if i < u.len() {
            lemma_trim_left_end(u.skip(i + 1), dotted);
            assert(whole.skip(i + 1) =~= u.skip(i + 1) + z);
        } else {
            let rest = whole.skip(i + 1);
            if dotted {
                assert(rest =~= path::dot());
                scan::lemma_position_is(rest, 0x2f, 1);
                assert(path::head(rest) =~= path::dot());
            } else {
                assert(rest =~= Seq::<u8>::empty());
            }
            assert(path::trim_left(rest) =~= Seq::<u8>::empty());
            assert(path::trim_left(u) =~= Seq::<u8>::empty());
        }
    }
}

/// A separator at the end, and a `.` behind it, are trimmed.
proof fn lemma_trim_right_end(x: Seq<u8>, dotted: bool)
    ensures
        ({
            let z = if dotted {
                seq![0x2fu8, 0x2eu8]
            } else {
                seq![0x2fu8]
            };
            path::trim_right(x + z) == path::trim_right(x)
        }),
{
    let z = if dotted {
        seq![0x2fu8, 0x2eu8]
    } else {
        seq![0x2fu8]
    };
    let whole = x + z;
    path_laws::lemma_last_start(whole);
    let j = path::last_start(whole);
    let n = x.len() as int;
    if j < n + 1 {
        assert(whole[n] == 0x2f);
    }
    if j > n + 1 {
        assert(whole[j - 1] == 0x2f);
        assert(whole[n + 1] == 0x2e);
    }
    assert(j == n + 1);
    if dotted {
        assert(whole.skip(j) =~= path::dot());
    } else {
        assert(whole.skip(j) =~= Seq::<u8>::empty());
    }
    assert(whole.take(j - 1) =~= x);
}

/// Further separators, and a `.` between them, at the ends of an absolute path
/// make no difference to where the cgroup is.
pub proof fn law_blank_ends_make_no_difference(root: Seq<u8>, t: Seq<u8>)
    ensures
        path::join_safely(root, seq![0x2fu8, 0x2fu8] + t) == path::join_safely(
            root,
            seq![0x2fu8] + t,
        ),
        path::join_safely(root, seq![0x2fu8, 0x2eu8, 0x2fu8] + t) == path::join_safely(
            root,
            seq![0x2fu8] + t,
        ),
        path::join_safely(root, seq![0x2fu8] + t + seq![0x2fu8]) == path::join_safely(
            root,
            seq![0x2fu8] + t,
        ),
        path::join_safely(root, seq![0x2fu8] + t + seq![0x2fu8, 0x2eu8]) == path::join_safely(
            root,
            seq![0x2fu8] + t,
        ),
{
    let plain = seq![0x2fu8] + t;
    assert(plain.skip(1) =~= t);
    let twice = seq![0x2fu8] + t;
    assert((seq![0x2fu8, 0x2fu8] + t).skip(1) =~= twice);
    scan::lemma_position_is(twice, 0x2f, 0);
    assert(path::head(twice) =~= Seq::<u8>::empty());
    assert(path::trim_left(twice) == path::trim_left(t));
    let dotted = seq![0x2eu8, 0x2fu8] + t;
    assert((seq![0x2fu8, 0x2eu8, 0x2fu8] + t).skip(1) =~= dotted);
    scan::lemma_position_is(dotted, 0x2f, 1);
    assert(path::head(dotted) =~= path::dot());
    assert(dotted.skip(2) =~= t);
    assert(path::trim_left(dotted) == path::trim_left(t));
    assert((plain + seq![0x2fu8]).skip(1) =~= t + seq![0x2fu8]);
    lemma_trim_left_end(t, false);
    lemma_trim_right_end(path::trim_left(t), false);
    assert((plain + seq![0x2fu8, 0x2eu8]).skip(1) =~= t + seq![0x2fu8, 0x2eu8]);
    lemma_trim_left_end(t, true);
    lemma_trim_right_end(path::trim_left(t), true);
    if path::trim_left(t).len() == 0 {
        assert(path::trim_left(t) =~= Seq::<u8>::empty());
    }
}

} // verus!
