//! The list of process ids in a `cgroup.procs` file.

use vstd::prelude::*;
use vstd::slice::slice_subrange;

use crate::decimal;
use crate::decimal::ParseIntError;
use crate::scan;

verus! {

/// The byte that ends a line.
pub const LINE_FEED: u8 = 0x0a;

/// The byte that may stand in front of the end of a line.
pub const CARRIAGE_RETURN: u8 = 0x0d;

/// A line without the carriage return that its end may have.
pub open spec fn chomp(line: Seq<u8>) -> Seq<u8> {
    if line.len() > 0 && line.last() == CARRIAGE_RETURN {
        line.drop_last()
    } else {
        line
    }
}

/// The lines of a text, without their ends. A text that ends in a line feed has
/// no further line behind it.
pub open spec fn lines(text: Seq<u8>) -> Seq<Seq<u8>>
    decreases text.len(),
{
    let i = scan::position(text, LINE_FEED);
    if text.len() == 0 {
        Seq::empty()
    } else if 0 <= i < text.len() {
        seq![chomp(text.take(i))] + lines(text.skip(i + 1))
    } else {
        seq![text]
    }
}

/// How many lines from the first on are decimal numbers.
pub open spec fn good(list: Seq<Seq<u8>>) -> nat
    decreases list.len(),
{
    if list.len() == 0 || decimal::value(list[0]) is Err {
        0
    } else {
        1 + good(list.skip(1))
    }
}

/// The process ids in front of the first line that is none.
pub open spec fn pids(text: Seq<u8>) -> Seq<i32> {
    Seq::new(good(lines(text)), |k: int| decimal::value(lines(text)[k])->Ok_0 as i32)
}

/// What is wrong with the first line that is no process id, if there is one.
pub open spec fn fault(text: Seq<u8>) -> Option<ParseIntError> {
    let k = good(lines(text)) as int;
    if k < lines(text).len() {
        Some(decimal::value(lines(text)[k])->Err_0)
    } else {
        None
    }
}

/// What a `cgroup.procs` file says.
pub struct Procs {
    /// The process ids in front of the first line that is none.
    pub pids: Vec<i32>,
    /// What is wrong with that line, if there is one.
    pub fault: Option<ParseIntError>,
}

/// The good lines are the leading ones that are numbers.
pub proof fn lemma_good(list: Seq<Seq<u8>>)
    ensures
        good(list) <= list.len(),
        forall|k: int| 0 <= k < good(list) ==> decimal::value(#[trigger] list[k]) is Ok,
        good(list) < list.len() ==> decimal::value(list[good(list) as int]) is Err,
    decreases list.len(),
{
    if list.len() == 0 || decimal::value(list[0]) is Err {
    } else {
        lemma_good(list.skip(1));
        assert forall|k: int| 0 <= k < good(list) implies decimal::value(#[trigger] list[k]) is Ok by {
            if k > 0 {
                assert(list.skip(1)[k - 1] == list[k]);
            }
        }
    }
}

/// The leading lines that are numbers are the good ones.
proof fn lemma_good_is(list: Seq<Seq<u8>>, n: int)
    requires
        0 <= n <= list.len(),
        forall|k: int| 0 <= k < n ==> decimal::value(#[trigger] list[k]) is Ok,
        n < list.len() ==> decimal::value(list[n]) is Err,
    ensures
        good(list) == n,
{
    lemma_good(list);
    let g = good(list) as int;
    if g < n {
        assert(decimal::value(list[g]) is Ok);
    }
    if n < g {
        assert(decimal::value(list[n]) is Ok);
    }
}

/// Reads one line, from `start` to `end`; `ended` tells that a line feed stands there.
fn read_line(text: &[u8], start: usize, end: usize, ended: bool) -> (r: Result<i32, ParseIntError>)
    requires
        start <= end <= text@.len(),
    ensures
        ({
            let line = text@.subrange(start as int, end as int);
            let shown = if ended {
                chomp(line)
            } else {
                line
            };
            &&& r matches Ok(v) ==> decimal::value(shown) == Ok::<int, ParseIntError>(v as int)
            &&& r matches Err(e) ==> decimal::value(shown) == Err::<int, ParseIntError>(e)
        }),
{
    let mut stop: usize = end;
    if ended && start < end && text[end - 1] == CARRIAGE_RETURN {
        stop = end - 1;
        proof {
            assert(text@.subrange(start as int, end as int).drop_last() =~= text@.subrange(
                start as int,
                stop as int,
            ));
        }
    }
    decimal::parse_i32(slice_subrange(text, start, stop))
}

impl Procs {
    /// Reads the process ids in a text, up to the first line that is none.
    pub fn read(text: &[u8]) -> (r: Procs)
        ensures
            r.pids@ == pids(text@),
            r.fault == fault(text@),
    {
        let ghost all = lines(text@);
        let mut list: Vec<i32> = Vec::new();
        let mut start: usize = 0;
        proof {
            assert(text@.skip(0) =~= text@);
            assert(all.skip(0) =~= all);
        }
        while start < text.len()
            invariant
                start <= text@.len(),
                all == lines(text@),
                list@.len() <= all.len(),
                lines(text@.skip(start as int)) == all.skip(list@.len() as int),
                forall|k: int| 0 <= k < list@.len() ==> decimal::value(#[trigger] all[k]) == Ok::<
                    int,
                    ParseIntError,
                >(list@[k] as int),
            decreases text@.len() - start,
        {
            let ghost rest = text@.skip(start as int);
            let ghost n = list@.len() as int;
            let end: usize = scan::find_from(text, start, LINE_FEED);
            let ended = end < text.len();
            let line = read_line(text, start, end, ended);
            proof {
                assert(text@.subrange(start as int, end as int) =~= rest.take(end - start));
                if !ended {
                    assert(rest.take(end - start) =~= rest);
                }
                assert(lines(rest).len() > 0);
                assert(all.skip(n)[0] == all[n]);
                assert(lines(rest)[0] == all[n]);
            }
            match line {
                Err(e) => {
                    proof {
                        lemma_good_is(all, n);
                        assert(list@ =~= pids(text@));
                    }
                    return Procs { pids: list, fault: Some(e) };
                },
                Ok(v) => {
                    list.push(v);
                },
            }
            let ghost from = start;
            if ended {
                start = end + 1;
                proof {
                    assert(rest.skip(end - from + 1) =~= text@.skip(start as int));
                    assert(lines(rest).skip(1) =~= lines(text@.skip(start as int)));
                }
            } else {
                start = end;
                proof {
                    assert(lines(rest).skip(1) =~= Seq::<Seq<u8>>::empty());
                    assert(text@.skip(start as int) =~= Seq::<u8>::empty());
                }
            }
            proof {
                assert(all.skip(n).skip(1) =~= all.skip(n + 1));
            }
        }
        proof {
            assert(text@.skip(start as int) =~= Seq::<u8>::empty());
            assert(all.skip(list@.len() as int).len() == 0);
        }
        proof {
            lemma_good_is(all, list@.len() as int);
            assert(list@ =~= pids(text@));
        }
        Procs { pids: list, fault: None }
    }
}

} // verus!
