//! Laws tying the parser to the state machine's contract: every input
//! of the accepted pattern — whitespace, a digit run, whitespace, `+`,
//! whitespace, a digit run, whitespace — parses back to the values the
//! two runs denote, so `submit`'s contract decides the outcome for
//! every such input by the operands' sum alone.

use vstd::prelude::*;
use crate::decimal::{
    all_digits, dec_digits, dec_value, is_dec_digit, pow10, lemma_dec_digits_are_digits,
    lemma_dec_value_of_dec_digits, lemma_pow10_19_fits_u64,
};
use crate::parser::{
    good_segment, is_space, operand1, operand2, parse_ok, plus_count, plus_index, trim,
    MAX_OPERAND_DIGITS,
};
use crate::machine::LIMB_LIMIT;

verus! {

/// The canonical text of the expression `a+b`: the digits of `a`, a
/// single `+`, the digits of `b`, with no whitespace.
pub open spec fn canonical_input(a: nat, b: nat) -> Seq<char> {
    dec_digits(a) + seq!['+'] + dec_digits(b)
}

/// Every character of `w` is whitespace.
pub open spec fn all_spaces(w: Seq<char>) -> bool {
    forall|i: int| 0 <= i < w.len() ==> is_space(#[trigger] w[i])
}

/// An input of the accepted pattern
/// `<ws>*<digits><ws>*+<ws>*<digits><ws>*`: the digit runs `d1` and
/// `d2` surrounded by the whitespace runs `w1` to `w4`.
pub open spec fn pattern_input(
    w1: Seq<char>,
    d1: Seq<char>,
    w2: Seq<char>,
    w3: Seq<char>,
    d2: Seq<char>,
    w4: Seq<char>,
) -> Seq<char> {
    w1 + d1 + w2 + seq!['+'] + w3 + d2 + w4
}

/// Concatenation adds the `+` counts of the parts.
proof fn lemma_plus_count_concat(s1: Seq<char>, s2: Seq<char>)
    ensures
        plus_count(s1 + s2) == plus_count(s1) + plus_count(s2),
    decreases s2.len(),
{
    if s2.len() == 0 {
        assert(s1 + s2 =~= s1);
    } else {
        assert((s1 + s2).drop_last() =~= s1 + s2.drop_last());
        assert((s1 + s2).last() == s2.last());
        lemma_plus_count_concat(s1, s2.drop_last());
    }
}

/// A digit string holds no `+`.
proof fn lemma_no_plus_in_digits(s: Seq<char>)
    requires
        all_digits(s),
    ensures
        plus_count(s) == 0,
    decreases s.len(),
{
    if s.len() > 0 {
        assert(all_digits(s.drop_last()));
        assert(is_dec_digit(s.last()));
        assert(s.last() != '+');
        lemma_no_plus_in_digits(s.drop_last());
    }
}

/// A digit string carries no surrounding whitespace, so trimming
/// leaves it as it is.
proof fn lemma_trim_digits(s: Seq<char>)
    requires
        all_digits(s),
        s.len() > 0,
    ensures
        trim(s) == s,
{
    assert(is_dec_digit(s.first()));
    assert(is_dec_digit(s.last()));
    assert(!is_space(s.first()));
    assert(!is_space(s.last()));
}

/// A whitespace run carries no `+`.
proof fn lemma_no_plus_in_spaces(w: Seq<char>)
    requires
        all_spaces(w),
    ensures
        plus_count(w) == 0,
    decreases w.len(),
{
    if w.len() > 0 {
        assert(all_spaces(w.drop_last()));
        assert(is_space(w.last()));
        assert(w.last() != '+');
        lemma_no_plus_in_spaces(w.drop_last());
    }
}

/// Trimming a whitespace run leaves nothing.
proof fn lemma_trim_all_space(w: Seq<char>)
    requires
        all_spaces(w),
    ensures
        trim(w) == Seq::<char>::empty(),
    decreases w.len(),
{
    if w.len() == 0 {
        assert(w =~= Seq::<char>::empty());
    } else {
        assert(is_space(w.first()));
        assert(all_spaces(w.drop_first()));
        lemma_trim_all_space(w.drop_first());
    }
}

/// Whitespace in front falls to the trim.
proof fn lemma_trim_prepend_spaces(w: Seq<char>, s: Seq<char>)
    requires
        all_spaces(w),
    ensures
        trim(w + s) == trim(s),
    decreases w.len(),
{
    if w.len() == 0 {
        assert(w + s =~= s);
    } else {
        assert((w + s).len() > 0);
        assert((w + s).first() == w.first());
        assert(is_space(w.first()));
        assert((w + s).drop_first() =~= w.drop_first() + s);
        assert(all_spaces(w.drop_first()));
        lemma_trim_prepend_spaces(w.drop_first(), s);
    }
}

/// Whitespace at the back falls to the trim.
proof fn lemma_trim_append_spaces(s: Seq<char>, w: Seq<char>)
    requires
        all_spaces(w),
    ensures
        trim(s + w) == trim(s),
    decreases s.len() + w.len(),
{
    if w.len() == 0 {
        assert(s + w =~= s);
    } else if s.len() == 0 {
        assert(s + w =~= w);
        lemma_trim_all_space(w);
        assert(s =~= Seq::<char>::empty());
    } else if is_space(s.first()) {
        assert((s + w).first() == s.first());
        assert((s + w).drop_first() =~= s.drop_first() + w);
        lemma_trim_append_spaces(s.drop_first(), w);
    } else {
        assert((s + w).first() == s.first());
        assert((s + w).last() == w.last());
        assert(is_space(w.last()));
        assert((s + w).drop_last() =~= s + w.drop_last());
        assert(all_spaces(w.drop_last()));
        lemma_trim_append_spaces(s, w.drop_last());
    }
}

/// Every input of the accepted pattern
/// `<ws>*<digits><ws>*+<ws>*<digits><ws>*` parses, and its operands
/// read back as the values the two digit runs denote — leading zeros
/// and any surrounding whitespace included.
pub proof fn lemma_pattern_input_parses(
    w1: Seq<char>,
    d1: Seq<char>,
    w2: Seq<char>,
    w3: Seq<char>,
    d2: Seq<char>,
    w4: Seq<char>,
)
    requires
        all_spaces(w1),
        all_spaces(w2),
        all_spaces(w3),
        all_spaces(w4),
        good_segment(d1),
        good_segment(d2),
    ensures
        parse_ok(pattern_input(w1, d1, w2, w3, d2, w4)),
        operand1(pattern_input(w1, d1, w2, w3, d2, w4)) == dec_value(d1),
        operand2(pattern_input(w1, d1, w2, w3, d2, w4)) == dec_value(d2),
{
    let plus = seq!['+'];
    let left = w1 + d1 + w2;
    let right = w3 + d2 + w4;
    let s = pattern_input(w1, d1, w2, w3, d2, w4);
    assert(s =~= left + plus + right);

    lemma_no_plus_in_spaces(w1);
    lemma_no_plus_in_spaces(w2);
    lemma_no_plus_in_spaces(w3);
    lemma_no_plus_in_spaces(w4);
    lemma_no_plus_in_digits(d1);
    lemma_no_plus_in_digits(d2);
    assert(plus_count(plus) == 1) by {
        assert(plus.drop_last() =~= Seq::<char>::empty());
        assert(plus_count(Seq::<char>::empty()) == 0);
        assert(plus.last() == '+');
    }
    lemma_plus_count_concat(w1, d1);
    lemma_plus_count_concat(w1 + d1, w2);
    lemma_plus_count_concat(left, plus);
    lemma_plus_count_concat(left + plus, right);
    lemma_plus_count_concat(w3, d2);
    lemma_plus_count_concat(w3 + d2, w4);
    assert(plus_count(left) == 0);
    assert(plus_count(right) == 0);
    assert(plus_count(s) == 1);

    let p = left.len() as int;
    assert(s[p] == '+');
    assert forall|j: int| 0 <= j < p implies s[j] != '+' by {
        assert(s[j] == left[j]);
        if j < w1.len() {
            assert(left[j] == w1[j]);
            assert(is_space(w1[j]));
        } else if j < w1.len() + d1.len() {
            assert(left[j] == d1[j - w1.len()]);
            assert(is_dec_digit(d1[j - w1.len()]));
        } else {
            assert(left[j] == w2[j - w1.len() - d1.len()]);
            assert(is_space(w2[j - w1.len() - d1.len()]));
        }
    }
    let pi = plus_index(s);
    assert(0 <= pi < s.len() && s[pi] == '+' && (forall|j: int| 0 <= j < pi ==> s[j] != '+'))
        by {
        assert(0 <= p < s.len() && s[p] == '+' && (forall|j: int| 0 <= j < p ==> s[j] != '+'));
    }
    if pi < p {
        assert(s[pi] != '+');
    }
    if p < pi {
        assert(s[p] != '+');
    }
    assert(pi == p);

    assert(s.subrange(0, p) =~= left);
    assert(s.subrange(p + 1, s.len() as int) =~= right);
    lemma_trim_append_spaces(w1 + d1, w2);
    lemma_trim_prepend_spaces(w1, d1);
    lemma_trim_digits(d1);
    assert(trim(left) == d1);
    lemma_trim_append_spaces(w3 + d2, w4);
    lemma_trim_prepend_spaces(w3, d2);
    lemma_trim_digits(d2);
    assert(trim(right) == d2);
}

/// The canonical expression `a+b` parses, and its operands read back
/// as `a` and `b`, for every pair of operands that fits a `u64`.
pub proof fn lemma_canonical_input_parses(a: u64, b: u64)
    requires
        a < pow10(MAX_OPERAND_DIGITS as nat),
        b < pow10(MAX_OPERAND_DIGITS as nat),
    ensures
        parse_ok(canonical_input(a as nat, b as nat)),
        operand1(canonical_input(a as nat, b as nat)) == a,
        operand2(canonical_input(a as nat, b as nat)) == b,
{
    let da = dec_digits(a as nat);
    let db = dec_digits(b as nat);
    let none = Seq::<char>::empty();
    lemma_dec_digits_are_digits(a as nat);
    lemma_dec_digits_are_digits(b as nat);
    lemma_dec_value_of_dec_digits(a as nat);
    lemma_dec_value_of_dec_digits(b as nat);
    assert(good_segment(da));
    assert(good_segment(db));
    lemma_pattern_input_parses(none, da, none, none, db, none);
    assert(canonical_input(a as nat, b as nat) =~= pattern_input(none, da, none, none, db, none));
}

/// For all operands `a, b >= 0` with `a + b` within the twenty limbs:
/// the canonical expression `a+b` parses to exactly those operands,
/// and their sum stays within the limit — so, by `submit`'s contract,
/// submitting it from the calculator view starts an animation session
/// with `total == a + b` and a count of zero.
pub proof fn lemma_within_limit_starts_session(a: u64, b: u64)
    requires
        a + b <= LIMB_LIMIT,
    ensures
        parse_ok(canonical_input(a as nat, b as nat)),
        operand1(canonical_input(a as nat, b as nat)) == a,
        operand2(canonical_input(a as nat, b as nat)) == b,
        operand1(canonical_input(a as nat, b as nat)) + operand2(canonical_input(a as nat, b as nat))
            <= LIMB_LIMIT,
{
    lemma_pow10_19_fits_u64();
    lemma_canonical_input_parses(a, b);
}

/// For all operands `a, b >= 0` with `a + b` beyond the twenty limbs:
/// the canonical expression `a+b` still parses to exactly those
/// operands, and their sum exceeds the limit — so, by `submit`'s
/// contract, submitting it routes to the result view with the
/// over-limit message, which embeds the digits of the computed sum.
pub proof fn lemma_over_limit_rejected(a: u64, b: u64)
    requires
        a + b > LIMB_LIMIT,
        a < pow10(MAX_OPERAND_DIGITS as nat),
        b < pow10(MAX_OPERAND_DIGITS as nat),
    ensures
        parse_ok(canonical_input(a as nat, b as nat)),
        operand1(canonical_input(a as nat, b as nat)) == a,
        operand2(canonical_input(a as nat, b as nat)) == b,
        operand1(canonical_input(a as nat, b as nat)) + operand2(canonical_input(a as nat, b as nat))
            > LIMB_LIMIT,
{
    lemma_canonical_input_parses(a, b);
}

} // verus!
