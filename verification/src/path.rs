//! Unix paths as byte sequences.
//!
//! A path is the bytes that the kernel sees. The functions here join paths and
//! take them apart into components, by the rules that Unix path names follow in
//! the standard library: `/` separates, empty components and `.` say nothing
//! (except for a `.` in front of a relative path), and `..` is kept as it is.

use vstd::prelude::*;
use vstd::slice::{slice_subrange, slice_to_vec};

use crate::scan;

verus! {

/// The byte that separates components.
pub const SEPARATOR: u8 = 0x2f;

/// The byte that the current directory is written with.
pub const DOT: u8 = 0x2e;

/// A path, as the bytes it is written with.
#[derive(Debug, PartialEq, Eq)]
pub struct UnixPath {
    pub bytes: Vec<u8>,
}

impl View for UnixPath {
    type V = Seq<u8>;

    open spec fn view(&self) -> Seq<u8> {
        self.bytes@
    }
}

/// Whether a path starts at the root of the file system.
pub open spec fn is_absolute(p: Seq<u8>) -> bool {
    p.len() > 0 && p[0] == SEPARATOR
}

/// `tail` under `base`: an absolute `tail` stands for itself, any other is
/// appended, with a separator in between unless `base` is empty or ends in one.
pub open spec fn join(base: Seq<u8>, tail: Seq<u8>) -> Seq<u8> {
    if is_absolute(tail) {
        tail
    } else if base.len() > 0 && base.last() != SEPARATOR {
        base.push(SEPARATOR) + tail
    } else {
        base + tail
    }
}

/// The text of the current directory.
pub open spec fn dot() -> Seq<u8> {
    seq![DOT]
}

/// Whether a piece between two separators says nothing.
pub open spec fn is_blank(piece: Seq<u8>) -> bool {
    piece.len() == 0 || piece == dot()
}

/// The text up to the first separator.
pub open spec fn head(p: Seq<u8>) -> Seq<u8> {
    p.take(scan::position(p, SEPARATOR))
}

/// The pieces between separators, without the blank ones.
pub open spec fn pieces(p: Seq<u8>) -> Seq<Seq<u8>>
    decreases p.len(),
{
    let i = scan::position(p, SEPARATOR);
    let rest = if 0 <= i < p.len() {
        pieces(p.skip(i + 1))
    } else {
        Seq::empty()
    };
    if is_blank(head(p)) {
        rest
    } else {
        seq![head(p)] + rest
    }
}

/// The components of a path other than the root directory.
pub open spec fn names(p: Seq<u8>) -> Seq<Seq<u8>> {
    if head(p) == dot() {
        seq![dot()] + pieces(p)
    } else {
        pieces(p)
    }
}

/// The components of a path, each by its text; the root directory is `/`.
pub open spec fn components(p: Seq<u8>) -> Seq<Seq<u8>> {
    if is_absolute(p) {
        seq![seq![SEPARATOR]] + names(p)
    } else {
        names(p)
    }
}

/// Whether two paths say the same by their text: both start at the root of the
/// file system or neither does, and they have the same pieces. That a `..`
/// leads back up is not looked at.
pub open spec fn same_text(p: Seq<u8>, q: Seq<u8>) -> bool {
    is_absolute(p) == is_absolute(q) && pieces(p) == pieces(q)
}

/// `p` without the blank pieces in front.
pub open spec fn trim_left(p: Seq<u8>) -> Seq<u8>
    decreases p.len(),
{
    let i = scan::position(p, SEPARATOR);
    if p.len() == 0 || !is_blank(head(p)) {
        p
    } else if 0 <= i < p.len() {
        trim_left(p.skip(i + 1))
    } else {
        Seq::empty()
    }
}

/// Where the piece after the last separator starts.
pub open spec fn last_start(p: Seq<u8>) -> int
    decreases p.len(),
{
    if p.len() == 0 {
        0
    } else if p.last() == SEPARATOR {
        p.len() as int
    } else {
        last_start(p.drop_last())
    }
}

/// `p` without the blank pieces at the end.
pub open spec fn trim_right(p: Seq<u8>) -> Seq<u8>
    decreases p.len(),
{
    let i = last_start(p);
    if p.len() == 0 || !is_blank(p.skip(i)) {
        p
    } else if 0 < i <= p.len() {
        trim_right(p.take(i - 1))
    } else {
        Seq::empty()
    }
}

/// What an absolute path says below the root directory.
pub open spec fn below_root(p: Seq<u8>) -> Seq<u8> {
    trim_right(trim_left(p.skip(1)))
}

/// `tail` under `base`, where an absolute `tail` is taken to start at `base`.
pub open spec fn join_safely(base: Seq<u8>, tail: Seq<u8>) -> Seq<u8> {
    if is_absolute(tail) {
        join(base, below_root(tail))
    } else {
        join(base, tail)
    }
}

/// The directory reached from `root` by the first `k` of `steps`.
pub open spec fn walk(root: Seq<u8>, steps: Seq<Seq<u8>>, k: int) -> Seq<u8>
    decreases k,
{
    if k <= 0 {
        root
    } else {
        join(walk(root, steps, k - 1), steps[k - 1])
    }
}

/// The byte sequences that a list of byte vectors holds.
pub open spec fn texts(list: Seq<Vec<u8>>) -> Seq<Seq<u8>> {
    list.map_values(|v: Vec<u8>| v@)
}

/// Tells whether a piece says nothing.
fn blank(piece: &[u8]) -> (b: bool)
    ensures
        b == is_blank(piece@),
{
    piece.len() == 0 || is_dot(piece)
}

/// Tells whether a component is the current directory.
pub fn is_dot(name: &[u8]) -> (b: bool)
    ensures
        b == (name@ == dot()),
{
    let b = name.len() == 1 && name[0] == DOT;
    proof {
        if b {
            assert(name@ =~= dot());
        }
    }
    b
}

/// Drops the blank pieces in front.
fn drop_left(p: &[u8]) -> (r: &[u8])
    ensures
        r@ == trim_left(p@),
{
    let mut start: usize = 0;
    proof {
        assert(p@.skip(0) =~= p@);
    }
    while start < p.len()
        invariant
            start <= p@.len(),
            trim_left(p@.skip(start as int)) == trim_left(p@),
        decreases p@.len() - start,
    {
        let ghost rest = p@.skip(start as int);
        let end: usize = scan::find_from(p, start, SEPARATOR);
        let piece = slice_subrange(p, start, end);
        proof {
            assert(piece@ =~= head(rest));
        }
        if !blank(piece) {
            return slice_subrange(p, start, p.len());
        }
        if end == p.len() {
            start = end;
            proof {
                assert(p@.skip(start as int) =~= Seq::<u8>::empty());
            }
        } else {
            start = end + 1;
            proof {
                assert(rest.skip(scan::position(rest, SEPARATOR) + 1) =~= p@.skip(start as int));
            }
        }
    }
    proof {
        assert(p@.skip(start as int) =~= Seq::<u8>::empty());
    }
    slice_subrange(p, start, p.len())
}

/// Finds where the piece after the last separator starts.
fn find_last_start(p: &[u8], end: usize) -> (i: usize)
    requires
        end <= p@.len(),
    ensures
        i == last_start(p@.take(end as int)),
        i <= end,
{
    let mut i: usize = end;
    while i > 0 && p[i - 1] != SEPARATOR
        invariant
            i <= end <= p@.len(),
            last_start(p@.take(i as int)) == last_start(p@.take(end as int)),
        decreases i,
    {
        proof {
            assert(p@.take(i as int).drop_last() =~= p@.take(i - 1));
        }
        i -= 1;
    }
    i
}

/// Drops the blank pieces at the end.
fn drop_right(p: &[u8]) -> (r: &[u8])
    ensures
        r@ == trim_right(p@),
{
    let mut end: usize = p.len();
    proof {
        assert(p@.take(end as int) =~= p@);
    }
    while end > 0
        invariant
            end <= p@.len(),
            trim_right(p@.take(end as int)) == trim_right(p@),
        decreases end,
    {
        let ghost front = p@.take(end as int);
        let start: usize = find_last_start(p, end);
        let piece = slice_subrange(p, start, end);
        proof {
            assert(piece@ =~= front.skip(start as int));
        }
        if !blank(piece) {
            return slice_subrange(p, 0, end);
        }
        if start == 0 {
            end = 0;
            proof {
                assert(p@.take(0) =~= Seq::<u8>::empty());
            }
        } else {
            proof {
                assert(front.take(start - 1) =~= p@.take(start - 1));
            }
            end = start - 1;
        }
    }
    proof {
        assert(p@.take(0) =~= Seq::<u8>::empty());
    }
    slice_subrange(p, 0, 0)
}

impl UnixPath {
    /// Makes a path of the bytes it is written with.
    pub fn from_bytes(bytes: Vec<u8>) -> (r: UnixPath)
        ensures
            r@ == bytes@,
    {
        UnixPath { bytes }
    }

    /// Makes a path of text.
    pub fn from_text(text: &str) -> (r: UnixPath)
        ensures
            r@ == vstd::utf8::encode_utf8(text@),
    {
        UnixPath { bytes: slice_to_vec(text.as_bytes()) }
    }

    /// Makes another path of the same bytes.
    pub fn copy(&self) -> (r: UnixPath)
        ensures
            r@ == self@,
    {
        UnixPath { bytes: slice_to_vec(self.bytes.as_slice()) }
    }

    /// Tells whether the path starts at the root of the file system.
    pub fn is_absolute(&self) -> (b: bool)
        ensures
            b == is_absolute(self@),
    {
        self.bytes.len() > 0 && self.bytes[0] == SEPARATOR
    }

    /// Puts `tail` under this path; an absolute `tail` replaces it.
    pub fn join(&self, tail: &[u8]) -> (r: UnixPath)
        ensures
            r@ == join(self@, tail@),
    {
        if tail.len() > 0 && tail[0] == SEPARATOR {
            return UnixPath { bytes: slice_to_vec(tail) };
        }
        let mut bytes: Vec<u8> = slice_to_vec(self.bytes.as_slice());
        if bytes.len() > 0 && bytes[bytes.len() - 1] != SEPARATOR {
            bytes.push(SEPARATOR);
        }
        bytes.extend_from_slice(tail);
        UnixPath { bytes }
    }

    /// Takes the root directory off the front: what is left says the same
    /// below it. A path that does not start there has none to take off.
    pub fn strip_root(&self) -> (r: Option<UnixPath>)
        ensures
            r is Some <==> is_absolute(self@),
            r matches Some(below) ==> below@ == below_root(self@),
    {
        if !self.is_absolute() {
            return None;
        }
        let rest = slice_subrange(self.bytes.as_slice(), 1, self.bytes.len());
        proof {
            assert(rest@ =~= self@.skip(1));
        }
        Some(UnixPath { bytes: slice_to_vec(drop_right(drop_left(rest))) })
    }

    /// Lists the components other than the root directory, in order.
    pub fn names(&self) -> (r: Vec<Vec<u8>>)
        ensures
            texts(r@) == names(self@),
    {
        let p = self.bytes.as_slice();
        let mut list: Vec<Vec<u8>> = Vec::new();
        let mut start: usize = 0;
        proof {
            assert(p@.skip(0) =~= p@);
        }
        let first_end: usize = scan::find_from(p, 0, SEPARATOR);
        let first = slice_subrange(p, 0, first_end);
        proof {
            assert(first@ =~= head(p@));
        }
        let ghost lead: Seq<Seq<u8>> = if head(p@) == dot() {
            seq![dot()]
        } else {
            Seq::empty()
        };
        if is_dot(first) {
            let item: Vec<u8> = slice_to_vec(first);
            list.push(item);
        }
        proof {
            assert(texts(list@) =~= lead);
            assert(lead + pieces(p@) =~= names(p@));
        }
        let mut more = true;
        while more
            invariant
                p@ == self@,
                start <= p@.len(),
                more ==> texts(list@) + pieces(p@.skip(start as int)) == names(p@),
                !more ==> texts(list@) == names(p@),
            decreases p@.len() - start + (if more { 1int } else { 0int }),
        {
            let ghost rest = p@.skip(start as int);
            let ghost before = texts(list@);
            let end: usize = scan::find_from(p, start, SEPARATOR);
            let piece = slice_subrange(p, start, end);
            proof {
                assert(piece@ =~= head(rest));
            }
            if !blank(piece) {
                let item: Vec<u8> = slice_to_vec(piece);
                list.push(item);
                proof {
                    assert(texts(list@) =~= before + seq![head(rest)]);
                }
            }
            if end == p.len() {
                more = false;
                proof {
                    assert(texts(list@) =~= before + pieces(rest));
                }
            } else {
                start = end + 1;
                proof {
                    assert(rest.skip(scan::position(rest, SEPARATOR) + 1) =~= p@.skip(start as int));
                    assert(texts(list@) + pieces(p@.skip(start as int)) =~= before + pieces(rest));
                }
            }
        }
        list
    }
}

} // verus!
