//! What the texts that are written and read mean, stated by their bytes.

use vstd::prelude::*;

use crate::controller_type::{
    ControllerType, PseudoControllerType, CONTROLLER_TYPES, PSEUDO_CONTROLLER_TYPES,
};
use crate::create;
use crate::decimal;
use crate::decimal::ParseIntError;
use crate::procs;
use crate::scan;

verus! {

/// What switches a controller on, written out.
pub open spec fn spelled(c: ControllerType) -> Seq<char> {
    match c {
        ControllerType::Cpu => "+cpu"@,
        ControllerType::CpuSet => "+cpuset"@,
        ControllerType::HugeTlb => "+hugetlb"@,
        ControllerType::Io => "+io"@,
        ControllerType::Memory => "+memory"@,
        ControllerType::Pids => "+pids"@,
    }
}

/// Each controller of a list gets one text that switches it on, in the order of
/// the list: a `+` and the name that the kernel has for it.
pub proof fn law_every_controller_is_switched_on(list: Seq<ControllerType>)
    ensures
        create::switches(list).len() == list.len(),
        forall|i: int| 0 <= i < list.len() ==> #[trigger] create::switches(list)[i] == spelled(list[i]),
{
    reveal_strlit("+");
    reveal_strlit("cpu");
    reveal_strlit("cpuset");
    reveal_strlit("hugetlb");
    reveal_strlit("io");
    reveal_strlit("memory");
    reveal_strlit("pids");
    reveal_strlit("+cpu");
    reveal_strlit("+cpuset");
    reveal_strlit("+hugetlb");
    reveal_strlit("+io");
    reveal_strlit("+memory");
    reveal_strlit("+pids");
    assert forall|i: int| 0 <= i < list.len() implies #[trigger] create::switches(list)[i]
        == spelled(list[i]) by {
        assert(create::switches(list)[i] =~= spelled(list[i]));
    }
}

/// The controllers and the pseudo controllers come in this order, none is left
/// out and none comes twice.
pub proof fn law_controllers_come_in_order()
    ensures
        CONTROLLER_TYPES@ == seq![
            ControllerType::Cpu,
            ControllerType::CpuSet,
            ControllerType::HugeTlb,
            ControllerType::Io,
            ControllerType::Memory,
            ControllerType::Pids,
        ],
        PSEUDO_CONTROLLER_TYPES@ == seq![
            PseudoControllerType::Devices,
            PseudoControllerType::Freezer,
            PseudoControllerType::Unified,
        ],
{
}

/// Whether all bytes are decimal digits.
pub open spec fn all_digits(s: Seq<u8>) -> bool {
    forall|i: int| 0 <= i < s.len() ==> 0x30 <= #[trigger] s[i] <= 0x39
}

/// The number that digits make, by the place of each.
pub open spec fn numeral(s: Seq<u8>) -> int
    decreases s.len(),
{
    if s.len() == 0 {
        0
    } else {
        numeral(s.drop_last()) * 10 + (s.last() - 0x30)
    }
}

/// The digits of a number make that number, and do not start with a zero
/// unless they are one.
proof fn lemma_numeral_of_digits(n: nat)
    ensures
        ({
            let s = decimal::ascii(decimal::digits(n));
            &&& s.len() > 0
            &&& all_digits(s)
            &&& numeral(s) == n
            &&& n > 0 ==> s[0] != 0x30
        }),
    decreases n,
{
    let s = decimal::ascii(decimal::digits(n));
    if n < 10 {
        assert(s =~= seq![(0x30 + n) as u8]);
        assert(s.drop_last() =~= Seq::empty());
        assert(numeral(s.drop_last()) == 0);
    } else {
        lemma_numeral_of_digits(n / 10);
        let front = decimal::ascii(decimal::digits(n / 10));
        assert(s =~= front.push((0x30 + n % 10) as u8));
        assert(s.drop_last() =~= front);
        assert(s[0] == front[0]);
        assert forall|i: int| 0 <= i < s.len() implies 0x30 <= #[trigger] s[i] <= 0x39 by {
            if i < front.len() {
                assert(s[i] == front[i]);
            }
        }
    }
}

/// A number is written as a `-` where it is negative, and then as the digits
/// that make it, without zeros in front.
pub proof fn law_decimal_text(i: i32)
    ensures
        ({
            let s = vstd::utf8::encode_utf8(decimal::decimal(i as int));
            let body = if i < 0 {
                s.skip(1)
            } else {
                s
            };
            &&& i < 0 ==> s.len() > 0 && s[0] == 0x2d
            &&& body.len() > 0
            &&& all_digits(body)
            &&& body[0] == 0x30 ==> body.len() == 1
            &&& numeral(body) == if i < 0 {
                -i
            } else {
                i as int
            }
        }),
{
    let n: nat = (if i < 0 {
        -i
    } else {
        i as int
    }) as nat;
    let s = vstd::utf8::encode_utf8(decimal::decimal(i as int));
    decimal::lemma_decimal_bytes(i);
    lemma_numeral_of_digits(n);
    if i < 0 {
        assert(s.skip(1) =~= decimal::ascii(decimal::digits(n)));
    } else if n == 0 {
        assert(s =~= seq![0x30u8]);
    }
}

/// What is left of a text behind its sign.
pub open spec fn behind_sign(s: Seq<u8>) -> Seq<u8> {
    if s.len() > 0 && (s[0] == 0x2b || s[0] == 0x2d) {
        s.skip(1)
    } else {
        s
    }
}

/// Digits make a number that does not go down with more of them.
proof fn lemma_numeral(s: Seq<u8>)
    requires
        all_digits(s),
    ensures
        numeral(s) >= 0,
        s.len() > 0 ==> numeral(s) >= numeral(s.drop_last()),
    decreases s.len(),
{
    if s.len() > 0 {
        let front = s.drop_last();
        assert forall|i: int| 0 <= i < front.len() implies 0x30 <= #[trigger] front[i] <= 0x39 by {
            assert(front[i] == s[i]);
        }
        lemma_numeral(front);
        assert(0x30 <= s[s.len() - 1] <= 0x39);
    }
}

/// Digits are read as the number that they make, where it fits.
proof fn lemma_read(s: Seq<u8>, negative: bool)
    requires
        all_digits(s),
    ensures
        decimal::digits_value(s, negative) == (if negative {
            if numeral(s) > 0x8000_0000 {
                Err::<int, ParseIntError>(ParseIntError::NegOverflow)
            } else {
                Ok(-numeral(s))
            }
        } else {
            if numeral(s) > 0x7fff_ffff {
                Err(ParseIntError::PosOverflow)
            } else {
                Ok(numeral(s))
            }
        }),
    decreases s.len(),
{
    if s.len() > 0 {
        let front = s.drop_last();
        assert forall|i: int| 0 <= i < front.len() implies 0x30 <= #[trigger] front[i] <= 0x39 by {
            assert(front[i] == s[i]);
        }
        lemma_read(front, negative);
        lemma_numeral(s);
        assert(0x30 <= s[s.len() - 1] <= 0x39);
    }
}

/// A text is read as an `i32` by an optional sign and the digits behind it, at
/// least one, which make its number. With `k` the number of digits behind the
/// sign: a number of these that does not fit is an overflow, and otherwise a
/// byte behind them that is no digit is invalid.
pub proof fn law_number_is_read(s: Seq<u8>, k: int)
    requires
        0 <= k <= behind_sign(s).len(),
        all_digits(behind_sign(s).take(k)),
        k < behind_sign(s).len() ==> !(0x30 <= behind_sign(s)[k] <= 0x39),
    ensures
        ({
            let n = numeral(behind_sign(s).take(k));
            let v = if s.len() > 0 && s[0] == 0x2d {
                -n
            } else {
                n
            };
            decimal::value(s) == (if s.len() == 0 {
                Err::<int, ParseIntError>(ParseIntError::Empty)
            } else if behind_sign(s).len() == 0 {
                Err(ParseIntError::InvalidDigit)
            } else if v > 2147483647 {
                Err(ParseIntError::PosOverflow)
            } else if v < -2147483648 {
                Err(ParseIntError::NegOverflow)
            } else if k < behind_sign(s).len() {
                Err(ParseIntError::InvalidDigit)
            } else {
                Ok(v)
            })
        }),
{
    let body = behind_sign(s);
    let negative = s.len() > 0 && s[0] == 0x2d;
    lemma_read(body.take(k), negative);
    lemma_numeral(body.take(k));
    if k < body.len() {
        assert(body.take(k + 1).drop_last() =~= body.take(k));
        decimal::lemma_error_stays(body, negative, k + 1);
    } else {
        assert(body.take(k) =~= body);
    }
}

/// What is read fits.
proof fn lemma_value_fits(s: Seq<u8>)
    ensures
        decimal::value(s) matches Ok(v) ==> i32::MIN <= v <= i32::MAX,
{
    decimal::lemma_sign(s, false);
    decimal::lemma_sign(s.skip(1), false);
    decimal::lemma_sign(s.skip(1), true);
}

/// A line ends at a line feed, or at a carriage return and a line feed, and
/// what is behind the last line feed is a line if it is not empty.
pub proof fn law_lines_end_at_line_feeds(line: Seq<u8>, rest: Seq<u8>)
    requires
        forall|j: int| 0 <= j < line.len() ==> line[j] != 0x0a,
    ensures
        procs::lines(line.push(0x0a) + rest) == seq![
            if line.len() > 0 && line.last() == 0x0d {
                line.drop_last()
            } else {
                line
            },
        ] + procs::lines(rest),
        procs::lines(line) == (if line.len() == 0 {
            Seq::<Seq<u8>>::empty()
        } else {
            seq![line]
        }),
{
    let whole = line.push(0x0a) + rest;
    let n = line.len() as int;
    assert forall|j: int| 0 <= j < n implies whole[j] != 0x0a by {
        assert(whole[j] == line[j]);
    }
    scan::lemma_position_is(whole, 0x0a, n);
    scan::lemma_position_is(line, 0x0a, n);
    assert(whole.take(n) =~= line);
    assert(whole.skip(n + 1) =~= rest);
}

/// Whether a text lists these process ids, one to a line, up to its end or to
/// the first line that is none and has this fault.
pub open spec fn lists(text: Seq<u8>, list: Seq<i32>, fault: Option<ParseIntError>) -> bool {
    let all = procs::lines(text);
    &&& list.len() <= all.len()
    &&& forall|k: int|
        0 <= k < list.len() ==> #[trigger] decimal::value(all[k]) == Ok::<int, ParseIntError>(
            list[k] as int,
        )
    &&& match fault {
        Some(e) => list.len() < all.len() && decimal::value(all[list.len() as int]) == Err::<
            int,
            ParseIntError,
        >(e),
        None => list.len() == all.len(),
    }
}

/// What is read of a text is what it lists: a process for each line in front of
/// the first that is none, and what is wrong with that one. A text lists
/// nothing else.
pub proof fn law_list_is_read_line_by_line(
    text: Seq<u8>,
    list: Seq<i32>,
    fault: Option<ParseIntError>,
)
    ensures
        lists(text, procs::pids(text), procs::fault(text)),
        lists(text, list, fault) ==> procs::pids(text) == list && procs::fault(text) == fault,
{
    let all = procs::lines(text);
    procs::lemma_good(all);
    let found = procs::pids(text);
    assert forall|k: int| 0 <= k < found.len() implies #[trigger] decimal::value(all[k]) == Ok::<
        int,
        ParseIntError,
    >(found[k] as int) by {
        lemma_value_fits(all[k]);
    }
    if lists(text, list, fault) {
        if list.len() < found.len() {
            let k = list.len() as int;
            assert(decimal::value(all[k]) is Ok);
        }
        if found.len() < list.len() {
            let k = found.len() as int;
            assert(decimal::value(all[k]) == Ok::<int, ParseIntError>(list[k] as int));
        }
        assert forall|k: int| 0 <= k < list.len() implies list[k] == found[k] by {
            assert(decimal::value(all[k]) == Ok::<int, ParseIntError>(list[k] as int));
        }
        assert(list =~= found);
    }
}

/// The text that lists processes, one to a line.
pub open spec fn listing(list: Seq<i32>) -> Seq<u8>
    decreases list.len(),
{
    if list.len() == 0 {
        Seq::empty()
    } else {
        vstd::utf8::encode_utf8(decimal::decimal(list[0] as int)).push(0x0a) + listing(
            list.skip(1),
        )
    }
}

/// It has a line for each process.
proof fn lemma_listing(list: Seq<i32>)
    ensures
        procs::lines(listing(list)).len() == list.len(),
        forall|k: int|
            0 <= k < list.len() ==> #[trigger] decimal::value(procs::lines(listing(list))[k])
                == Ok::<int, ParseIntError>(list[k] as int),
    decreases list.len(),
{
    if list.len() > 0 {
        let line = vstd::utf8::encode_utf8(decimal::decimal(list[0] as int));
        let rest = listing(list.skip(1));
        lemma_listing(list.skip(1));
        decimal::lemma_decimal_bytes(list[0]);
        decimal::law_decimal_round_trip(list[0]);
        assert forall|j: int| 0 <= j < line.len() implies line[j] != 0x0a && line[j] != 0x0d by {
            assert(decimal::is_digit(line[j]) || line[j] == 0x2d);
        }
        law_lines_end_at_line_feeds(line, rest);
        let all = procs::lines(listing(list));
        assert(all == seq![line] + procs::lines(rest));
        assert forall|k: int| 0 <= k < list.len() implies #[trigger] decimal::value(all[k]) == Ok::<
            int,
            ParseIntError,
        >(list[k] as int) by {
            if k > 0 {
                assert(all[k] == procs::lines(rest)[k - 1]);
                assert(list.skip(1)[k - 1] == list[k]);
                assert(decimal::value(procs::lines(rest)[k - 1]) == Ok::<int, ParseIntError>(
                    list.skip(1)[k - 1] as int,
                ));
            }
        }
    }
}

/// Processes that are listed one to a line are read as exactly these, however
/// many there are, and without a fault.
pub proof fn law_every_listed_process_is_read(list: Seq<i32>)
    ensures
        procs::pids(listing(list)) == list,
        procs::fault(listing(list)) is None,
        procs::lines(listing(list)).len() == list.len(),
{
    lemma_listing(list);
    law_list_is_read_line_by_line(listing(list), list, None);
}

} // verus!
