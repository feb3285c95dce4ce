//! Process ids as decimal text.

use vstd::prelude::*;
use vstd::slice::slice_subrange;
use vstd::string::StringExecFns;

verus! {

/// The digit for a number below ten.
pub open spec fn digit(d: int) -> char {
    (0x30 + d) as char
}

/// The decimal digits of a number, without leading zeros.
pub open spec fn digits(n: nat) -> Seq<char>
    decreases n,
{
    if n < 10 {
        seq![digit(n as int)]
    } else {
        digits(n / 10).push(digit((n % 10) as int))
    }
}

/// A number as decimal text, with `-` in front of a negative one.
pub open spec fn decimal(i: int) -> Seq<char> {
    if i < 0 {
        seq!['-'] + digits((-i) as nat)
    } else {
        digits(i as nat)
    }
}

/// The text of one digit.
fn digit_text(d: u32) -> (t: &'static str)
    requires
        d < 10,
    ensures
        t@ == seq![digit(d as int)],
{
    proof {
        reveal_strlit("0");
        reveal_strlit("1");
        reveal_strlit("2");
        reveal_strlit("3");
        reveal_strlit("4");
        reveal_strlit("5");
        reveal_strlit("6");
        reveal_strlit("7");
        reveal_strlit("8");
        reveal_strlit("9");
    }
    match d {
        0 => "0",
        1 => "1",
        2 => "2",
        3 => "3",
        4 => "4",
        5 => "5",
        6 => "6",
        7 => "7",
        8 => "8",
        _ => "9",
    }
}

/// Writes a number in decimal digits.
fn digits_text(n: u32) -> (t: String)
    ensures
        t@ == digits(n as nat),
    decreases n,
{
    if n < 10 {
        digit_text(n).to_owned()
    } else {
        digits_text(n / 10).concat(digit_text(n % 10))
    }
}

/// Writes a number as decimal text.
pub fn to_decimal(i: i32) -> (t: String)
    ensures
        t@ == decimal(i as int),
{
    if i < 0 {
        proof {
            reveal_strlit("-");
        }
        let magnitude: u32 = (-(i as i64)) as u32;
        "-".to_owned().concat(digits_text(magnitude).as_str())
    } else {
        digits_text(i as u32)
    }
}

/// Why a text is no decimal number that fits an `i32`.
#[derive(Debug, Clone, Copy, PartialEq, Eq, Structural)]
pub enum ParseIntError {
    /// There is no text.
    Empty,
    /// A byte that is no digit, or no digit at all behind a sign.
    InvalidDigit,
    /// The number is too large.
    PosOverflow,
    /// The number is too small.
    NegOverflow,
}

/// Whether a byte is a decimal digit.
pub open spec fn is_digit(b: u8) -> bool {
    0x30 <= b <= 0x39
}

/// The number that digits behind a sign make, read from the left: the first
/// byte that is no digit, or that leads out of the range, decides.
pub open spec fn digits_value(s: Seq<u8>, negative: bool) -> Result<int, ParseIntError>
    decreases s.len(),
{
    if s.len() == 0 {
        Ok(0)
    } else {
        match digits_value(s.drop_last(), negative) {
            Err(e) => Err(e),
            Ok(v) => {
                let d = s.last() - 0x30;
                if !is_digit(s.last()) {
                    Err(ParseIntError::InvalidDigit)
                } else if negative && v * 10 - d < i32::MIN {
                    Err(ParseIntError::NegOverflow)
                } else if !negative && v * 10 + d > i32::MAX {
                    Err(ParseIntError::PosOverflow)
                } else if negative {
                    Ok(v * 10 - d)
                } else {
                    Ok(v * 10 + d)
                }
            },
        }
    }
}

/// The `i32` that a text is the decimal form of: an optional sign and then
/// digits, at least one.
pub open spec fn value(s: Seq<u8>) -> Result<int, ParseIntError> {
    if s.len() == 0 {
        Err(ParseIntError::Empty)
    } else if s.len() == 1 && (s[0] == 0x2b || s[0] == 0x2d) {
        Err(ParseIntError::InvalidDigit)
    } else if s[0] == 0x2d {
        digits_value(s.skip(1), true)
    } else if s[0] == 0x2b {
        digits_value(s.skip(1), false)
    } else {
        digits_value(s, false)
    }
}

/// What was read of `s` decides: an error at `k` stays the result.
pub proof fn lemma_error_stays(s: Seq<u8>, negative: bool, k: int)
    requires
        0 <= k <= s.len(),
        digits_value(s.take(k), negative) is Err,
    ensures
        digits_value(s, negative) == digits_value(s.take(k), negative),
    decreases s.len() - k,
{
    if k == s.len() {
        assert(s.take(k) =~= s);
    } else {
        assert(s.take(k + 1).drop_last() =~= s.take(k));
        lemma_error_stays(s, negative, k + 1);
    }
}

/// Reads digits behind a sign.
fn read_digits(s: &[u8], negative: bool) -> (r: Result<i32, ParseIntError>)
    ensures
        r matches Ok(v) ==> digits_value(s@, negative) == Ok::<int, ParseIntError>(v as int),
        r matches Err(e) ==> digits_value(s@, negative) == Err::<int, ParseIntError>(e),
{
    let mut v: i64 = 0;
    let mut i: usize = 0;
    while i < s.len()
        invariant
            i <= s@.len(),
            i32::MIN <= v <= i32::MAX,
            digits_value(s@.take(i as int), negative) == Ok::<int, ParseIntError>(v as int),
        decreases s@.len() - i,
    {
        let ghost seen = s@.take(i + 1);
        proof {
            assert(seen.drop_last() =~= s@.take(i as int));
            if digits_value(seen, negative) is Err {
                lemma_error_stays(s@, negative, i + 1);
            }
        }
        let b: u8 = s[i];
        if b < 0x30 || b > 0x39 {
            return Err(ParseIntError::InvalidDigit);
        }
        let d: i64 = (b - 0x30) as i64;
        if negative {
            v = v * 10 - d;
            if v < i32::MIN as i64 {
                return Err(ParseIntError::NegOverflow);
            }
        } else {
            v = v * 10 + d;
            if v > i32::MAX as i64 {
                return Err(ParseIntError::PosOverflow);
            }
        }
        proof {
            lemma_sign(seen, negative);
        }
        i += 1;
    }
    proof {
        assert(s@.take(i as int) =~= s@);
    }
    Ok(v as i32)
}

/// Digits behind a sign make a number of that sign.
pub proof fn lemma_sign(s: Seq<u8>, negative: bool)
    ensures
        digits_value(s, negative) matches Ok(v) ==> i32::MIN <= v <= i32::MAX && (if negative {
            v <= 0
        } else {
            v >= 0
        }),
    decreases s.len(),
{
    if s.len() > 0 {
        lemma_sign(s.drop_last(), negative);
    }
}

/// Reads a decimal number.
pub fn parse_i32(s: &[u8]) -> (r: Result<i32, ParseIntError>)
    ensures
        r matches Ok(v) ==> value(s@) == Ok::<int, ParseIntError>(v as int),
        r matches Err(e) ==> value(s@) == Err::<int, ParseIntError>(e),
{
    if s.len() == 0 {
        return Err(ParseIntError::Empty);
    }
    let sign: u8 = s[0];
    if sign == 0x2b || sign == 0x2d {
        if s.len() == 1 {
            return Err(ParseIntError::InvalidDigit);
        }
        let rest = slice_subrange(s, 1, s.len());
        proof {
            assert(rest@ =~= s@.skip(1));
        }
        return read_digits(rest, sign == 0x2d);
    }
    read_digits(s, false)
}

/// The bytes of a text of ASCII characters.
pub open spec fn ascii(t: Seq<char>) -> Seq<u8> {
    Seq::new(t.len(), |i: int| t[i] as u8)
}

/// Decimal digits are ASCII, and there is at least one.
proof fn lemma_digits(n: nat)
    ensures
        digits(n).len() > 0,
        forall|i: int| 0 <= i < digits(n).len() ==> '0' <= #[trigger] digits(n)[i] <= '9',
    decreases n,
{
    if n >= 10 {
        lemma_digits(n / 10);
        let front = digits(n / 10);
        assert forall|i: int| 0 <= i < digits(n).len() implies '0' <= #[trigger] digits(n)[i]
            <= '9' by {
            if i < front.len() {
                assert(digits(n)[i] == front[i]);
            }
        }
    }
}

/// Digits are read back as the number they were written for.
proof fn lemma_read_digits(n: nat, negative: bool)
    requires
        n <= 0x8000_0000,
        n == 0x8000_0000 ==> negative,
    ensures
        digits_value(ascii(digits(n)), negative) == Ok::<int, ParseIntError>(if negative {
            -n
        } else {
            n as int
        }),
    decreases n,
{
    let s = ascii(digits(n));
    lemma_digits(n);
    if n < 10 {
        assert(s.drop_last() =~= Seq::empty());
        assert(digits_value(s.drop_last(), negative) == Ok::<int, ParseIntError>(0));
    } else {
        lemma_read_digits(n / 10, negative);
        assert(s.drop_last() =~= ascii(digits(n / 10)));
    }
}

/// The bytes of decimal text: digits, and a `-` that may stand in front.
pub proof fn lemma_decimal_bytes(i: i32)
    ensures
        ({
            let t = decimal(i as int);
            let s = vstd::utf8::encode_utf8(t);
            &&& s == ascii(t)
            &&& s.len() > 0
            &&& forall|k: int| 0 <= k < s.len() ==> is_digit(#[trigger] s[k]) || s[k] == 0x2d
        }),
{
    let t = decimal(i as int);
    let n: nat = (if i < 0 {
        -i
    } else {
        i as int
    }) as nat;
    lemma_digits(n);
    assert forall|k: int| 0 <= k < t.len() implies ('0' <= #[trigger] t[k] <= '9') || t[k] == '-' by {
        if i >= 0 {
            assert(t[k] == digits(n)[k]);
        } else if k > 0 {
            assert(t[k] == digits(n)[k - 1]);
        }
    }
    assert(vstd::utf8::is_ascii_chars(t));
    vstd::utf8::is_ascii_chars_encode_utf8(t);
    let s = vstd::utf8::encode_utf8(t);
    assert(s =~= ascii(t));
    assert forall|k: int| 0 <= k < s.len() implies is_digit(#[trigger] s[k]) || s[k] == 0x2d by {
        assert(s[k] == t[k] as u8);
    }
}

/// A number written as decimal text is read back as that number.
pub proof fn law_decimal_round_trip(i: i32)
    ensures
        value(vstd::utf8::encode_utf8(decimal(i as int))) == Ok::<int, ParseIntError>(i as int),
{
    let t = decimal(i as int);
    let n: nat = (if i < 0 {
        -i
    } else {
        i as int
    }) as nat;
    lemma_digits(n);
    lemma_decimal_bytes(i);
    let s = vstd::utf8::encode_utf8(t);
    lemma_read_digits(n, i < 0);
    if i < 0 {
        assert(s.skip(1) =~= ascii(digits(n)));
    } else {
        assert(digits(n)[0] >= '0');
    }
}

} // verus!
