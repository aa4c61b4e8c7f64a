//! Positional numerals: digit strings with the most significant digit first.
//!
//! A digit string stands for a number and, beside it, for the count of its
//! leading zeros. Rewriting a string in another radix keeps both, which makes
//! the rewriting reversible.

use vstd::arithmetic::div_mod::{
    lemma_div_decreases, lemma_fundamental_div_mod, lemma_fundamental_div_mod_converse,
    lemma_mod_bound,
};
use vstd::prelude::*;

verus! {

/// The number that `digits` write in the given radix.
pub open spec fn numeral_value(digits: Seq<u8>, radix: nat) -> nat
    decreases digits.len(),
{
    if digits.len() == 0 {
        0
    } else {
        numeral_value(digits.drop_last(), radix) * radix + digits.last() as nat
    }
}

/// The shortest digit string that writes `n` in the given radix: it never
/// starts with a zero, and for zero it is empty.
pub open spec fn numeral_digits(n: nat, radix: nat) -> Seq<u8>
    decreases n,
{
    if n == 0 || radix < 2 {
        Seq::empty()
    } else {
        proof {
            lemma_div_decreases(n as int, radix as int);
        }
        numeral_digits(n / radix, radix).push((n % radix) as u8)
    }
}

/// How many zeros stand at the start of `digits`.
pub open spec fn leading_zeros(digits: Seq<u8>) -> nat
    decreases digits.len(),
{
    if digits.len() == 0 || digits[0] != 0 {
        0
    } else {
        1 + leading_zeros(digits.drop_first())
    }
}

/// `count` zeros.
pub open spec fn zeros(count: nat) -> Seq<u8> {
    Seq::new(count, |i: int| 0u8)
}

/// Every digit is below the radix.
pub open spec fn in_radix(digits: Seq<u8>, radix: nat) -> bool {
    forall|i: int| 0 <= i < digits.len() ==> (#[trigger] digits[i] as nat) < radix
}

/// `digits`, read in radix `from`, rewritten in radix `to`: as many leading
/// zeros as before, then the shortest string for the same number.
pub open spec fn convert_radix(digits: Seq<u8>, from: nat, to: nat) -> Seq<u8> {
    zeros(leading_zeros(digits)) + numeral_digits(numeral_value(digits, from), to)
}

/// `digits` has no leading zero.
pub open spec fn is_minimal(digits: Seq<u8>) -> bool {
    digits.len() == 0 || digits[0] != 0
}

/// The digits of a number write that number.
pub proof fn lemma_value_of_digits(n: nat, radix: nat)
    requires
        2 <= radix <= 256,
    ensures
        numeral_value(numeral_digits(n, radix), radix) == n,
    decreases n,
{
    if n != 0 {
        lemma_div_decreases(n as int, radix as int);
        lemma_value_of_digits(n / radix, radix);
        lemma_fundamental_div_mod(n as int, radix as int);
        lemma_mod_bound(n as int, radix as int);
        let shorter = numeral_digits(n / radix, radix);
        let last = (n % radix) as u8;
        assert(shorter.push(last).drop_last() == shorter);
        assert((n / radix) * radix == radix * (n / radix)) by (nonlinear_arith);
    }
}

/// The digits of a number are below the radix and start with no zero; only
/// zero has no digits.
pub proof fn lemma_digits_are_minimal(n: nat, radix: nat)
    requires
        2 <= radix <= 256,
    ensures
        in_radix(numeral_digits(n, radix), radix),
        is_minimal(numeral_digits(n, radix)),
        n > 0 ==> numeral_digits(n, radix).len() > 0,
    decreases n,
{
    if n != 0 {
        lemma_div_decreases(n as int, radix as int);
        lemma_digits_are_minimal(n / radix, radix);
        lemma_fundamental_div_mod(n as int, radix as int);
        lemma_mod_bound(n as int, radix as int);
        let shorter = numeral_digits(n / radix, radix);
        let last = (n % radix) as u8;
        let all = shorter.push(last);
        assert forall|i: int| 0 <= i < all.len() implies (#[trigger] all[i] as nat) < radix by {
            if i < shorter.len() {
                assert(all[i] == shorter[i]);
            }
        }
        if n / radix == 0 {
            assert(radix * (n / radix) == 0) by (nonlinear_arith)
                requires
                    n / radix == 0,
            ;
            assert(all[0] == last);
        } else {
            assert(all[0] == shorter[0]);
        }
    }
}

/// A string without a leading zero that has a digit writes a positive
/// number.
pub proof fn lemma_minimal_value_positive(digits: Seq<u8>, radix: nat)
    requires
        2 <= radix,
        is_minimal(digits),
        digits.len() > 0,
    ensures
        numeral_value(digits, radix) > 0,
    decreases digits.len(),
{
    let shorter = digits.drop_last();
    if shorter.len() > 0 {
        assert(shorter[0] == digits[0]);
        lemma_minimal_value_positive(shorter, radix);
        let v = numeral_value(shorter, radix);
        assert(v * radix > 0) by (nonlinear_arith)
            requires
                v > 0,
                radix >= 2,
        ;
    } else {
        assert(digits.last() == digits[0]);
    }
}

/// A string without a leading zero is the digits of the number it writes.
pub proof fn lemma_digits_of_value(digits: Seq<u8>, radix: nat)
    requires
        2 <= radix <= 256,
        in_radix(digits, radix),
        is_minimal(digits),
    ensures
        numeral_digits(numeral_value(digits, radix), radix) == digits,
    decreases digits.len(),
{
    if digits.len() > 0 {
        let shorter = digits.drop_last();
        let last = digits.last();
        let v = numeral_value(digits, radix);
        let w = numeral_value(shorter, radix);
        lemma_minimal_value_positive(digits, radix);
        if shorter.len() > 0 {
            assert(shorter[0] == digits[0]);
        }
        assert forall|i: int| 0 <= i < shorter.len() implies (#[trigger] shorter[i] as nat)
            < radix by {
            assert(shorter[i] == digits[i]);
        }
        lemma_digits_of_value(shorter, radix);
        assert((last as nat) < radix);
        lemma_fundamental_div_mod_converse(v as int, radix as int, w as int, last as int);
        assert(shorter.push(last) == digits);
    }
}

/// Zeros write zero.
pub proof fn lemma_value_of_zeros(count: nat, radix: nat)
    ensures
        numeral_value(zeros(count), radix) == 0,
    decreases count,
{
    if count > 0 {
        assert(zeros(count).drop_last() == zeros((count - 1) as nat));
        lemma_value_of_zeros((count - 1) as nat, radix);
        assert(0 * radix == 0) by (nonlinear_arith);
    }
}

/// Zeros in front of a string do not change the number it writes.
pub proof fn lemma_value_ignores_leading_zeros(count: nat, digits: Seq<u8>, radix: nat)
    ensures
        numeral_value(zeros(count) + digits, radix) == numeral_value(digits, radix),
    decreases digits.len(),
{
    if digits.len() == 0 {
        assert(zeros(count) + digits == zeros(count));
        lemma_value_of_zeros(count, radix);
    } else {
        assert((zeros(count) + digits).drop_last() == zeros(count) + digits.drop_last());
        lemma_value_ignores_leading_zeros(count, digits.drop_last(), radix);
    }
}

/// A string is its leading zeros followed by a string without a leading
/// zero.
pub proof fn lemma_split_leading_zeros(digits: Seq<u8>)
    ensures
        leading_zeros(digits) <= digits.len(),
        digits == zeros(leading_zeros(digits)) + digits.skip(leading_zeros(digits) as int),
        is_minimal(digits.skip(leading_zeros(digits) as int)),
    decreases digits.len(),
{
    if digits.len() == 0 || digits[0] != 0 {
        assert(digits.skip(0) == digits);
        assert(zeros(0) + digits == digits);
    } else {
        let rest = digits.drop_first();
        let count = leading_zeros(rest);
        lemma_split_leading_zeros(rest);
        assert(digits.skip(count as int + 1) == rest.skip(count as int));
        assert(digits == zeros(count + 1) + rest.skip(count as int)) by {
            let joined = zeros(count + 1) + rest.skip(count as int);
            assert(rest == zeros(count) + rest.skip(count as int));
            assert(joined.len() == digits.len());
            assert forall|i: int| 0 <= i < digits.len() implies digits[i] == joined[i] by {
                if i > 0 {
                    assert(digits[i] == rest[i - 1]);
                    assert(rest[i - 1] == (zeros(count) + rest.skip(count as int))[i - 1]);
                }
            }
        }
    }
}

/// Zeros in front of a string without a leading zero are all of its leading
/// zeros.
pub proof fn lemma_leading_zeros_of_padded(count: nat, digits: Seq<u8>)
    requires
        is_minimal(digits),
    ensures
        leading_zeros(zeros(count) + digits) == count,
    decreases count,
{
    if count == 0 {
        assert(zeros(0) + digits == digits);
    } else {
        let padded = zeros(count) + digits;
        assert(padded[0] == 0);
        assert(padded.drop_first() == zeros((count - 1) as nat) + digits);
        lemma_leading_zeros_of_padded((count - 1) as nat, digits);
    }
}

/// Rewriting a string in another radix and back gives the string again.
pub proof fn lemma_convert_radix_round_trip(digits: Seq<u8>, from: nat, to: nat)
    requires
        2 <= from <= 256,
        2 <= to <= 256,
        in_radix(digits, from),
    ensures
        in_radix(convert_radix(digits, from, to), to),
        convert_radix(convert_radix(digits, from, to), to, from) == digits,
{
    let count = leading_zeros(digits);
    let number = numeral_value(digits, from);
    let written = numeral_digits(number, to);
    let converted = convert_radix(digits, from, to);
    let significant = digits.skip(count as int);

    lemma_digits_are_minimal(number, to);
    assert forall|i: int| 0 <= i < converted.len() implies (#[trigger] converted[i] as nat)
        < to by {
        if i >= count {
            assert(converted[i] == written[i - count]);
        }
    }
    lemma_leading_zeros_of_padded(count, written);
    lemma_value_ignores_leading_zeros(count, written, to);
    lemma_value_of_digits(number, to);

    lemma_split_leading_zeros(digits);
    lemma_value_ignores_leading_zeros(count, significant, from);
    assert forall|i: int| 0 <= i < significant.len() implies (#[trigger] significant[i] as nat)
        < from by {
        assert(significant[i] == digits[i + count]);
    }
    lemma_digits_of_value(significant, from);
}

} // verus!
