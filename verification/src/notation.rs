//! Writing amounts out: plain decimal, and a short scientific form for
//! amounts of more than four digits.

use crate::bignum::biguint_value;
use num_bigint::BigUint;
use vstd::prelude::*;
use vstd::string::*;

verus! {

/// The character of a decimal digit.
pub open spec fn digit_char(digit: nat) -> char {
    if digit == 0 {
        '0'
    } else if digit == 1 {
        '1'
    } else if digit == 2 {
        '2'
    } else if digit == 3 {
        '3'
    } else if digit == 4 {
        '4'
    } else if digit == 5 {
        '5'
    } else if digit == 6 {
        '6'
    } else if digit == 7 {
        '7'
    } else if digit == 8 {
        '8'
    } else {
        '9'
    }
}

/// A number written in decimal, without leading zeros; zero is "0".
pub open spec fn decimal_digits(n: nat) -> Seq<char>
    decreases n,
{
    if n < 10 {
        seq![digit_char(n)]
    } else {
        decimal_digits(n / 10).push(digit_char(n % 10))
    }
}

/// Whether a character is a decimal digit.
pub open spec fn is_digit(c: char) -> bool {
    c == '0' || c == '1' || c == '2' || c == '3' || c == '4' || c == '5' || c == '6' || c == '7'
        || c == '8' || c == '9'
}

/// Whether a text is a number written in decimal without leading zeros.
pub open spec fn is_numeral(digits: Seq<char>) -> bool {
    &&& digits.len() > 0
    &&& forall|i: int| 0 <= i < digits.len() ==> is_digit(#[trigger] digits[i])
    &&& digits.len() > 1 ==> digits[0] != '0'
}

/// A number written in decimal is a numeral.
pub proof fn lemma_decimal_digits_numeral(n: nat)
    ensures
        is_numeral(decimal_digits(n)),
        n >= 10 ==> decimal_digits(n).len() > 1,
        n > 0 ==> decimal_digits(n)[0] != '0',
    decreases n,
{
    if n >= 10 {
        lemma_decimal_digits_numeral(n / 10);
        let shorter = decimal_digits(n / 10);
        let digits = decimal_digits(n);
        assert(digits[0] == shorter[0]);
        assert forall|i: int| 0 <= i < digits.len() implies is_digit(#[trigger] digits[i]) by {
            if i < shorter.len() {
                assert(digits[i] == shorter[i]);
            }
        }
    }
}

/// `BigUint::to_str_radix` with radix ten: trusted to write the number in
/// decimal, most significant digit first, without leading zeros, and
/// zero as "0".
#[verifier::external_body]
pub(crate) fn big_to_decimal(n: &BigUint) -> (digits: String)
    ensures
        digits@ == decimal_digits(biguint_value(*n)),
{
    n.to_str_radix(10)
}

/// The text of one decimal digit.
fn digit_str(digit: usize) -> (text: &'static str)
    requires
        digit < 10,
    ensures
        text@ == seq![digit_char(digit as nat)],
{
    proof {
        reveal_strlit("0");
        reveal_strlit("1");
        reveal_strlit("2");
        reveal_strlit("3");
        reveal_strlit("4");
        reveal_strlit("5");
        reveal_strlit("6");
        reveal_strlit("7");
        reveal_strlit("8");
        reveal_strlit("9");
    }
    let text = if digit == 0 {
        "0"
    } else if digit == 1 {
        "1"
    } else if digit == 2 {
        "2"
    } else if digit == 3 {
        "3"
    } else if digit == 4 {
        "4"
    } else if digit == 5 {
        "5"
    } else if digit == 6 {
        "6"
    } else if digit == 7 {
        "7"
    } else if digit == 8 {
        "8"
    } else {
        "9"
    };
    assert(text@ =~= seq![digit_char(digit as nat)]);
    text
}

/// Writes a count in decimal.
pub fn count_to_decimal(n: usize) -> (digits: String)
    ensures
        digits@ == decimal_digits(n as nat),
    decreases n,
{
    if n < 10 {
        String::from_str(digit_str(n))
    } else {
        let mut digits = count_to_decimal(n / 10);
        digits.append(digit_str(n % 10));
        assert(digits@ =~= decimal_digits((n / 10) as nat).push(digit_char((n % 10) as nat)));
        digits
    }
}

/// A text without the zeros at its end.
pub open spec fn without_trailing_zeros(digits: Seq<char>) -> Seq<char>
    decreases digits.len(),
{
    if digits.len() > 0 && digits.last() == '0' {
        without_trailing_zeros(digits.drop_last())
    } else {
        digits
    }
}

/// The short form of a numeral. Up to four digits stay as they are.
/// A longer numeral loses its trailing zeros, gets a point after its
/// first digit unless that is all that is left, is cut to four
/// significant digits, and ends in `e` and the number of digits that
/// followed the first.
pub open spec fn scientific(digits: Seq<char>) -> Seq<char> {
    if digits.len() <= 4 {
        digits
    } else {
        let significant = without_trailing_zeros(digits);
        let exponent = decimal_digits((digits.len() - 1) as nat);
        if significant.len() == 1 {
            significant + seq!['e'] + exponent
        } else {
            let pointed = significant.take(1) + seq!['.'] + significant.skip(1);
            let mantissa = if pointed.len() > 5 {
                pointed.take(5)
            } else {
                pointed
            };
            mantissa + seq!['e'] + exponent
        }
    }
}

/// Only zeros follow the place where the trailing zeros of a text begin.
proof fn lemma_trailing_zeros(digits: Seq<char>, end: int)
    requires
        0 <= end <= digits.len(),
        forall|i: int| end <= i < digits.len() ==> digits[i] == '0',
    ensures
        without_trailing_zeros(digits) == without_trailing_zeros(digits.take(end)),
    decreases digits.len() - end,
{
    if end < digits.len() {
        assert(digits.last() == '0');
        lemma_trailing_zeros(digits.drop_last(), end);
        assert(digits.drop_last().take(end) =~= digits.take(end));
    } else {
        assert(digits.take(end) =~= digits);
    }
}

/// The short form of a numeral that is handed over as text.
pub fn format_scientific_digits(digits: &str) -> (text: String)
    requires
        is_numeral(digits@),
    ensures
        text@ == scientific(digits@),
{
    let digit_count = digits.unicode_len();
    if digit_count <= 4 {
        return String::from_str(digits);
    }
    let mut end: usize = digit_count;
    while end > 1 && digits.get_char(end - 1) == '0'
        invariant
            1 <= end <= digit_count,
            digit_count == digits@.len(),
            forall|i: int| end <= i < digit_count ==> digits@[i] == '0',
        decreases end,
    {
        end -= 1;
    }
    let significant = digits.substring_char(0, end);
    proof {
        lemma_trailing_zeros(digits@, end as int);
        assert(digits@.take(end as int) =~= digits@.subrange(0, end as int));
        assert(significant@.last() != '0');
        assert(without_trailing_zeros(significant@) == significant@);
        reveal_strlit("e");
        reveal_strlit(".");
    }
    let exponent = count_to_decimal(digit_count - 1);
    if end == 1 {
        let mut text = String::from_str(significant);
        text.append("e");
        text.append(exponent.as_str());
        assert(text@ =~= scientific(digits@));
        return text;
    }
    let shown: usize = if end > 4 {
        4
    } else {
        end
    };
    let mut text = String::from_str(significant.substring_char(0, 1));
    text.append(".");
    text.append(significant.substring_char(1, shown));
    proof {
        let pointed = significant@.take(1) + seq!['.'] + significant@.skip(1);
        let mantissa = if pointed.len() > 5 {
            pointed.take(5)
        } else {
            pointed
        };
        assert(text@ =~= mantissa);
    }
    text.append("e");
    text.append(exponent.as_str());
    assert(text@ =~= scientific(digits@));
    text
}

/// The short form of an amount: as it is up to four digits, otherwise
/// with at most four significant digits and a power of ten.
pub fn format_scientific(num: &BigUint) -> (text: String)
    ensures
        text@ == scientific(decimal_digits(biguint_value(*num))),
{
    let digits = big_to_decimal(num);
    proof {
        lemma_decimal_digits_numeral(biguint_value(*num));
    }
    format_scientific_digits(digits.as_str())
}

} // verus!
