//! The input parser: turns a raw text expression such as `" 6 + 5 "`
//! into two validated non-negative operands, or reports why it cannot.
//!
//! An accepted input holds exactly one `+`, and each side of it, once
//! surrounding whitespace is removed, is a non-empty string of decimal
//! digits. Whitespace is Unicode's `White_Space` set, the one `str::trim`
//! removes. Leading zeros are welcome; only the denoted value is
//! bounded: an operand of [`MAX_OPERAND_DIGITS`] or more significant
//! digits does not fit in a `u64` and is rejected as an invalid number.

use vstd::prelude::*;
use crate::decimal::{
    all_digits, dec_value, is_dec_digit, pow10, lemma_pow10_19_fits_u64, lemma_dec_value_bound,
    lemma_skip_leading_zero, lemma_dec_value_lower, lemma_pow10_monotonic,
};

verus! {

/// The longest run of significant digits accepted as one operand.
/// Nineteen decimal digits are the most that always fit in a `u64`.
pub const MAX_OPERAND_DIGITS: usize = 19;

/// Why an input expression was rejected.
#[derive(Clone, Copy, PartialEq, Eq, Structural, Debug)]
pub enum ParseError {
    /// The input does not have the form `number+number` (its number of
    /// `+`-separated segments is not two).
    FormatError,
    /// A segment is not a valid non-negative decimal number.
    NumberError,
}

/// `c` is in Unicode's `White_Space` set, the characters `str::trim`
/// removes.
pub open spec fn is_space(c: char) -> bool {
    ||| c == '\t'
    ||| c == '\n'
    ||| c == '\u{000B}'
    ||| c == '\u{000C}'
    ||| c == '\r'
    ||| c == ' '
    ||| c == '\u{0085}'
    ||| c == '\u{00A0}'
    ||| c == '\u{1680}'
    ||| (0x2000 <= c as int && c as int <= 0x200A)
    ||| c == '\u{2028}'
    ||| c == '\u{2029}'
    ||| c == '\u{202F}'
    ||| c == '\u{205F}'
    ||| c == '\u{3000}'
}

/// `s` with all leading and trailing whitespace removed.
pub open spec fn trim(s: Seq<char>) -> Seq<char>
    decreases s.len(),
{
    if s.len() == 0 {
        s
    } else if is_space(s.first()) {
        trim(s.drop_first())
    } else if is_space(s.last()) {
        trim(s.drop_last())
    } else {
        s
    }
}

/// How many `+` characters `s` holds.
pub open spec fn plus_count(s: Seq<char>) -> nat
    decreases s.len(),
{
    if s.len() == 0 {
        0
    } else {
        plus_count(s.drop_last()) + (if s.last() == '+' { 1nat } else { 0nat })
    }
}

/// The position of the first `+` in `s`; meaningful only when `s`
/// holds at least one.
pub open spec fn plus_index(s: Seq<char>) -> int {
    choose|i: int|
        0 <= i < s.len() && s[i] == '+' && (forall|j: int| 0 <= j < i ==> s[j] != '+')
}

/// A trimmed segment that is accepted as an operand: non-empty, all
/// digits, and denoting a value that fits in a `u64`. Any number of
/// leading zeros is allowed.
pub open spec fn good_segment(t: Seq<char>) -> bool {
    t.len() >= 1 && all_digits(t) && dec_value(t) < pow10(MAX_OPERAND_DIGITS as nat)
}

/// The trimmed text left of the (first) `+`.
pub open spec fn seg1(s: Seq<char>) -> Seq<char> {
    trim(s.subrange(0, plus_index(s)))
}

/// The trimmed text right of the (first) `+`.
pub open spec fn seg2(s: Seq<char>) -> Seq<char> {
    trim(s.subrange(plus_index(s) + 1, s.len() as int))
}

/// The input `s` parses: exactly one `+`, and an accepted operand on
/// each side of it.
pub open spec fn parse_ok(s: Seq<char>) -> bool {
    plus_count(s) == 1 && good_segment(seg1(s)) && good_segment(seg2(s))
}

/// The error reported for an input that does not parse: a wrong
/// segment count is a format error, anything else a number error.
pub open spec fn parse_err(s: Seq<char>) -> ParseError {
    if plus_count(s) != 1 {
        ParseError::FormatError
    } else {
        ParseError::NumberError
    }
}

/// The left operand's value; meaningful only when `parse_ok(s)`.
pub open spec fn operand1(s: Seq<char>) -> nat {
    dec_value(seg1(s))
}

/// The right operand's value; meaningful only when `parse_ok(s)`.
pub open spec fn operand2(s: Seq<char>) -> nat {
    dec_value(seg2(s))
}

/// Decides whether `c` is Unicode whitespace.
fn is_space_char(c: char) -> (r: bool)
    ensures
        r == is_space(c),
{
    let u = c as u32;
    u == 0x09 || u == 0x0A || u == 0x0B || u == 0x0C || u == 0x0D || u == 0x20 || u == 0x85
        || u == 0xA0 || u == 0x1680 || (0x2000 <= u && u <= 0x200A) || u == 0x2028 || u == 0x2029
        || u == 0x202F || u == 0x205F || u == 0x3000
}

/// Parses the segment of `raw` between character positions `lo` and
/// `hi` (after trimming) as one non-negative decimal operand.
fn parse_segment(raw: &str, from: usize, to: usize) -> (r: Result<u64, ParseError>)
    requires
        from <= to <= raw@.len(),
    ensures
        good_segment(trim(raw@.subrange(from as int, to as int))) ==> (r matches Ok(v)
            && v as nat == dec_value(trim(raw@.subrange(from as int, to as int)))),
        !good_segment(trim(raw@.subrange(from as int, to as int))) ==> r == Err::<
            u64,
            ParseError,
        >(ParseError::NumberError),
{
    let ghost t = trim(raw@.subrange(from as int, to as int));
    let mut lo: usize = from;
    let mut hi: usize = to;
    while lo < hi && is_space_char(raw.get_char(lo))
        invariant
            from <= lo <= hi <= raw@.len(),
            hi == to,
            t == trim(raw@.subrange(lo as int, hi as int)),
        decreases hi - lo,
    {
        proof {
            assert(raw@.subrange(lo as int, hi as int).drop_first() =~= raw@.subrange(
                lo as int + 1,
                hi as int,
            ));
        }
        lo = lo + 1;
    }
    while lo < hi && is_space_char(raw.get_char(hi - 1))
        invariant
            from <= lo <= hi <= raw@.len(),
            t == trim(raw@.subrange(lo as int, hi as int)),
            lo < hi ==> !is_space(raw@[lo as int]),
        decreases hi,
    {
        proof {
            assert(raw@.subrange(lo as int, hi as int).drop_last() =~= raw@.subrange(
                lo as int,
                hi as int - 1,
            ));
        }
        hi = hi - 1;
    }
    proof {
        if lo == hi {
            assert(raw@.subrange(lo as int, hi as int).len() == 0);
        }
        assert(t =~= raw@.subrange(lo as int, hi as int));
    }
    if lo == hi {
        return Err(ParseError::NumberError);
    }
    let ghost lo_t = lo as int;
    while hi - lo > 1 && raw.get_char(lo) == '0'
        invariant
            from <= lo_t <= lo as int,
            lo < hi <= raw@.len(),
            t == trim(raw@.subrange(from as int, to as int)),
            t == raw@.subrange(lo_t, hi as int),
            dec_value(raw@.subrange(lo as int, hi as int)) == dec_value(t),
            forall|j: int| lo_t <= j < lo as int ==> raw@[j] == '0',
        decreases hi - lo,
    {
        proof {
            let rem = raw@.subrange(lo as int, hi as int);
            assert(rem.first() == raw@[lo as int]);
            lemma_skip_leading_zero(rem);
            assert(rem.drop_first() =~= raw@.subrange(lo as int + 1, hi as int));
        }
        lo = lo + 1;
    }
    if hi - lo > MAX_OPERAND_DIGITS {
        proof {
            let rem = raw@.subrange(lo as int, hi as int);
            if all_digits(t) {
                assert forall|j: int| 0 <= j < rem.len() implies is_dec_digit(
                    #[trigger] rem[j],
                ) by {
                    assert(rem[j] == t[j + (lo as int - lo_t)]);
                }
                assert(rem.first() == t[lo as int - lo_t]);
                assert(is_dec_digit(rem.first()));
                assert(rem.first() == raw@[lo as int]);
                assert(raw@[lo as int] != '0');
                assert(crate::decimal::digit_val(rem.first()) >= 1);
                lemma_dec_value_lower(rem);
                lemma_pow10_monotonic(MAX_OPERAND_DIGITS as nat, (rem.len() - 1) as nat);
                assert(dec_value(t) >= pow10(MAX_OPERAND_DIGITS as nat));
            }
            assert(!good_segment(t));
        }
        return Err(ParseError::NumberError);
    }
    let mut acc: u64 = 0;
    let mut i: usize = lo;
    while i < hi
        invariant
            lo <= i <= hi <= raw@.len(),
            from <= lo_t <= lo as int,
            lo < hi,
            hi - lo <= MAX_OPERAND_DIGITS,
            t == trim(raw@.subrange(from as int, to as int)),
            t == raw@.subrange(lo_t, hi as int),
            dec_value(raw@.subrange(lo as int, hi as int)) == dec_value(t),
            forall|j: int| lo_t <= j < lo as int ==> raw@[j] == '0',
            all_digits(raw@.subrange(lo as int, i as int)),
            acc as nat == dec_value(raw@.subrange(lo as int, i as int)),
        decreases hi - i,
    {
        let c = raw.get_char(i);
        let u = c as u32;
        if u < 48 || u > 57 {
            proof {
                assert(t.len() == hi - lo_t);
                assert(t[i - lo_t] == raw@[i as int]);
                assert(!is_dec_digit(t[i - lo_t]));
                assert(!all_digits(t));
                assert(!good_segment(t));
            }
            return Err(ParseError::NumberError);
        }
        let d = (u - 48) as u64;
        proof {
            let prefix = raw@.subrange(lo as int, i as int);
            lemma_dec_value_bound(prefix, 18);
            lemma_pow10_19_fits_u64();
            assert(pow10(18) * 10 == pow10(19)) by {
                assert(pow10(19) == 10 * pow10(18));
            }
            assert(acc as int * 10 <= (pow10(18) - 1) * 10) by (nonlinear_arith)
                requires
                    acc as int <= pow10(18) - 1,
            ;
            assert(prefix.len() <= 18);
        }
        acc = acc * 10 + d;
        proof {
            assert(raw@.subrange(lo as int, i as int + 1).drop_last() =~= raw@.subrange(
                lo as int,
                i as int,
            ));
            assert(raw@.subrange(lo as int, i as int + 1).last() == c);
            assert(crate::decimal::digit_val(c) == u - 48);
            assert forall|j: int| 0 <= j < i as int + 1 - lo implies is_dec_digit(
                #[trigger] raw@.subrange(lo as int, i as int + 1)[j],
            ) by {
                if j < i as int - lo {
                    assert(raw@.subrange(lo as int, i as int)[j] == raw@.subrange(
                        lo as int,
                        i as int + 1,
                    )[j]);
                }
            }
        }
        i = i + 1;
    }
    proof {
        let rem = raw@.subrange(lo as int, hi as int);
        assert(raw@.subrange(lo as int, i as int) =~= rem);
        lemma_dec_value_bound(rem, MAX_OPERAND_DIGITS as nat);
        assert forall|j: int| 0 <= j < t.len() implies is_dec_digit(#[trigger] t[j]) by {
            if j < lo as int - lo_t {
                assert(t[j] == raw@[lo_t + j]);
                assert(is_dec_digit('0'));
            } else {
                assert(t[j] == rem[j - (lo as int - lo_t)]);
            }
        }
        assert(good_segment(t));
    }
    Ok(acc)
}

/// Parses a raw expression into its two operands.
///
/// Exactly one `+` must occur, and each side of it, after trimming
/// whitespace, must be a non-empty run of decimal digits denoting a
/// value that fits in a `u64` (leading zeros are fine); the returned
/// values are the numbers those runs denote. A wrong segment count
/// yields `FormatError`; a bad segment yields `NumberError`.
pub fn parse(raw: &str) -> (r: Result<(u64, u64), ParseError>)
    ensures
        parse_ok(raw@) ==> (r matches Ok(ops) && ops.0 as nat == operand1(raw@) && ops.1 as nat
            == operand2(raw@)),
        !parse_ok(raw@) ==> r == Err::<(u64, u64), ParseError>(parse_err(raw@)),
{
    let n = raw.unicode_len();
    let mut count: usize = 0;
    let mut plus_at: usize = 0;
    let mut i: usize = 0;
    while i < n
        invariant
            0 <= i <= n,
            n == raw@.len(),
            count <= i,
            count as nat == plus_count(raw@.subrange(0, i as int)),
            count >= 1 ==> (plus_at < i && raw@[plus_at as int] == '+' && (forall|j: int|
                0 <= j < plus_at ==> raw@[j] != '+')),
            count == 0 ==> (forall|j: int| 0 <= j < i ==> raw@[j] != '+'),
        decreases n - i,
    {
        let c = raw.get_char(i);
        proof {
            assert(raw@.subrange(0, i as int + 1).drop_last() =~= raw@.subrange(0, i as int));
            assert(raw@.subrange(0, i as int + 1).last() == c);
        }
        if c == '+' {
            if count == 0 {
                plus_at = i;
            }
            count = count + 1;
        }
        i = i + 1;
    }
    proof {
        assert(raw@.subrange(0, n as int) =~= raw@);
    }
    if count != 1 {
        return Err(ParseError::FormatError);
    }
    proof {
        let s = raw@;
        assert(0 <= plus_at < s.len() && s[plus_at as int] == '+' && (forall|j: int|
            0 <= j < plus_at ==> s[j] != '+'));
        let p = plus_index(s);
        assert(0 <= p < s.len() && s[p] == '+' && (forall|j: int| 0 <= j < p ==> s[j] != '+'));
        if p < plus_at as int {
            assert(s[p] != '+');
        }
        if (plus_at as int) < p {
            assert(s[plus_at as int] != '+');
        }
        assert(p == plus_at as int);
    }
    let left = match parse_segment(raw, 0, plus_at) {
        Ok(v) => v,
        Err(_) => {
            return Err(ParseError::NumberError);
        },
    };
    let right = match parse_segment(raw, plus_at + 1, n) {
        Ok(v) => v,
        Err(_) => {
            return Err(ParseError::NumberError);
        },
    };
    Ok((left, right))
}

} // verus!
