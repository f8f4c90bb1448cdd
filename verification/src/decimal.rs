//! Base-10 digit strings: the value a digit sequence denotes, the
//! canonical digit string of a number, and a verified writer that
//! appends that string to a `String`.
//!
//! These are the building blocks for parsing the user's expression and
//! for producing the result and error messages.

use vstd::prelude::*;

verus! {

/// `c` is one of the ten ASCII decimal digit characters.
pub open spec fn is_dec_digit(c: char) -> bool {
    48 <= c as int && c as int <= 57
}

/// The numeric value of one decimal digit character.
pub open spec fn digit_val(c: char) -> nat {
    (c as int - 48) as nat
}

/// The digit character for `d`; meaningful only for `d < 10`.
pub open spec fn digit_char(d: nat) -> char {
    if d == 0 { '0' }
    else if d == 1 { '1' }
    else if d == 2 { '2' }
    else if d == 3 { '3' }
    else if d == 4 { '4' }
    else if d == 5 { '5' }
    else if d == 6 { '6' }
    else if d == 7 { '7' }
    else if d == 8 { '8' }
    else { '9' }
}

/// Every character of `s` is a decimal digit.
pub open spec fn all_digits(s: Seq<char>) -> bool {
    forall|i: int| 0 <= i < s.len() ==> is_dec_digit(#[trigger] s[i])
}

/// The number that the digit sequence `s` denotes in base 10
/// (0 for the empty sequence).
pub open spec fn dec_value(s: Seq<char>) -> nat
    decreases s.len(),
{
    if s.len() == 0 {
        0
    } else {
        dec_value(s.drop_last()) * 10 + digit_val(s.last())
    }
}

/// The canonical digit string of `n`: no sign, no leading zeros
/// (except for `n == 0`, which is written "0").
pub open spec fn dec_digits(n: nat) -> Seq<char>
    decreases n,
{
    if n < 10 {
        seq![digit_char(n)]
    } else {
        dec_digits(n / 10).push(digit_char(n % 10))
    }
}

/// The k-th power of ten.
pub open spec fn pow10(k: nat) -> nat
    decreases k,
{
    if k == 0 {
        1
    } else {
        10 * pow10((k - 1) as nat)
    }
}

/// The canonical digit string is non-empty and made of digits only.
pub proof fn lemma_dec_digits_are_digits(n: nat)
    ensures
        dec_digits(n).len() >= 1,
        all_digits(dec_digits(n)),
    decreases n,
{
    if n < 10 {
        assert(is_dec_digit(digit_char(n)));
    } else {
        lemma_dec_digits_are_digits(n / 10);
        assert(is_dec_digit(digit_char(n % 10)));
        assert forall|i: int| 0 <= i < dec_digits(n).len() implies is_dec_digit(
            #[trigger] dec_digits(n)[i],
        ) by {
            if i < dec_digits(n / 10).len() {
                assert(dec_digits(n)[i] == dec_digits(n / 10)[i]);
            }
        }
    }
}

/// Round trip: reading the canonical digit string of `n` back in base
/// 10 gives `n`.
pub proof fn lemma_dec_value_of_dec_digits(n: nat)
    ensures
        dec_value(dec_digits(n)) == n,
    decreases n,
{
    if n < 10 {
        let s = seq![digit_char(n)];
        assert(s.drop_last() =~= Seq::<char>::empty());
        assert(dec_value(Seq::<char>::empty()) == 0);
        assert(dec_value(s) == digit_val(digit_char(n)));
    } else {
        lemma_dec_value_of_dec_digits(n / 10);
        let prefix = dec_digits(n / 10);
        let s = prefix.push(digit_char(n % 10));
        assert(s.drop_last() =~= prefix);
        assert(dec_value(s) == (n / 10) * 10 + digit_val(digit_char(n % 10)));
        assert(digit_val(digit_char(n % 10)) == n % 10);
    }
}

/// A leading zero does not change the value a digit sequence denotes.
pub proof fn lemma_skip_leading_zero(s: Seq<char>)
    requires
        s.len() >= 1,
        s.first() == '0',
    ensures
        dec_value(s.drop_first()) == dec_value(s),
    decreases s.len(),
{
    if s.len() == 1 {
        assert(s.drop_first() =~= Seq::<char>::empty());
        assert(s.drop_last() =~= Seq::<char>::empty());
        assert(digit_val('0') == 0);
    } else {
        assert(s.drop_last().first() == s.first());
        lemma_skip_leading_zero(s.drop_last());
        assert(s.drop_first().drop_last() =~= s.drop_last().drop_first());
        assert(s.drop_first().last() == s.last());
    }
}

/// A sequence whose first digit is significant denotes at least
/// `pow10` of its remaining length.
pub proof fn lemma_dec_value_lower(s: Seq<char>)
    requires
        s.len() >= 1,
        digit_val(s.first()) >= 1,
    ensures
        dec_value(s) >= pow10((s.len() - 1) as nat),
    decreases s.len(),
{
    if s.len() == 1 {
        assert(s.drop_last() =~= Seq::<char>::empty());
        assert(dec_value(Seq::<char>::empty()) == 0);
    } else {
        assert(s.drop_last().first() == s.first());
        lemma_dec_value_lower(s.drop_last());
    }
}

/// Powers of ten grow with the exponent.
pub proof fn lemma_pow10_monotonic(j: nat, k: nat)
    requires
        j <= k,
    ensures
        pow10(j) <= pow10(k),
    decreases k,
{
    if j < k {
        lemma_pow10_monotonic(j, (k - 1) as nat);
        lemma_pow10_positive((k - 1) as nat);
    }
}

/// A digit sequence of length at most `k` denotes a value below
/// `pow10(k)`.
pub proof fn lemma_dec_value_bound(s: Seq<char>, k: nat)
    requires
        all_digits(s),
        s.len() <= k,
    ensures
        dec_value(s) < pow10(k),
    decreases s.len(),
{
    if s.len() == 0 {
        lemma_pow10_positive(k);
    } else {
        let prefix = s.drop_last();
        assert(all_digits(prefix));
        lemma_dec_value_bound(prefix, (k - 1) as nat);
        assert(is_dec_digit(s.last()));
        assert(digit_val(s.last()) <= 9);
        assert(dec_value(prefix) <= pow10((k - 1) as nat) - 1);
        assert(dec_value(prefix) * 10 <= (pow10((k - 1) as nat) - 1) * 10) by (nonlinear_arith)
            requires
                dec_value(prefix) <= pow10((k - 1) as nat) - 1,
        ;
        assert(pow10(k) == 10 * pow10((k - 1) as nat));
    }
}

/// Powers of ten are positive.
pub proof fn lemma_pow10_positive(k: nat)
    ensures
        pow10(k) >= 1,
    decreases k,
{
    if k > 0 {
        lemma_pow10_positive((k - 1) as nat);
    }
}

/// Nineteen decimal digits always fit in a `u64`.
pub proof fn lemma_pow10_19_fits_u64()
    ensures
        pow10(19) == 10_000_000_000_000_000_000,
        pow10(19) <= u64::MAX,
{
    reveal_with_fuel(pow10, 20);
}

/// Appends the canonical decimal digit string of `n` to `out`.
pub fn append_decimal(out: &mut String, n: u128)
    ensures
        final(out)@ == old(out)@ + dec_digits(n as nat),
    decreases n,
{
    if n >= 10 {
        append_decimal(out, n / 10);
    }
    let ghost mid = out@;
    let d: u128 = n % 10;
    if d == 0 {
        proof { reveal_strlit("0"); }
        out.append("0");
        proof { assert(out@ =~= mid.push(digit_char(d as nat))); }
    } else if d == 1 {
        proof { reveal_strlit("1"); }
        out.append("1");
        proof { assert(out@ =~= mid.push(digit_char(d as nat))); }
    } else if d == 2 {
        proof { reveal_strlit("2"); }
        out.append("2");
        proof { assert(out@ =~= mid.push(digit_char(d as nat))); }
    } else if d == 3 {
        proof { reveal_strlit("3"); }
        out.append("3");
        proof { assert(out@ =~= mid.push(digit_char(d as nat))); }
    } else if d == 4 {
        proof { reveal_strlit("4"); }
        out.append("4");
        proof { assert(out@ =~= mid.push(digit_char(d as nat))); }
    } else if d == 5 {
        proof { reveal_strlit("5"); }
        out.append("5");
        proof { assert(out@ =~= mid.push(digit_char(d as nat))); }
    } else if d == 6 {
        proof { reveal_strlit("6"); }
        out.append("6");
        proof { assert(out@ =~= mid.push(digit_char(d as nat))); }
    } else if d == 7 {
        proof { reveal_strlit("7"); }
        out.append("7");
        proof { assert(out@ =~= mid.push(digit_char(d as nat))); }
    } else if d == 8 {
        proof { reveal_strlit("8"); }
        out.append("8");
        proof { assert(out@ =~= mid.push(digit_char(d as nat))); }
    } else {
        proof { reveal_strlit("9"); }
        out.append("9");
        proof { assert(out@ =~= mid.push(digit_char(d as nat))); }
    }
    proof {
        if n < 10 {
            assert(dec_digits(n as nat) =~= Seq::<char>::empty().push(digit_char(n as nat)));
            assert(out@ =~= old(out)@ + dec_digits(n as nat));
        } else {
            assert(dec_digits(n as nat) =~= dec_digits((n as nat) / 10).push(
                digit_char((n as nat) % 10),
            ));
            assert(out@ =~= old(out)@ + dec_digits(n as nat));
        }
    }
}

} // verus!
