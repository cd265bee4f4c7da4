//! Decimal numerals.

use vstd::prelude::*;
use vstd::utf8::*;

verus! {

/// The character of a decimal digit.
pub open spec fn digit(d: int) -> char {
    (48 + d) as char
}

/// The decimal digits of a natural number, without leading zeros.
pub open spec fn digits(n: nat) -> Seq<char>
    decreases n,
{
    if n < 10 {
        seq![digit(n as int)]
    } else {
        digits(n / 10).push(digit((n % 10) as int))
    }
}

/// The decimal numeral of an integer: its digits, behind a minus sign if it is negative.
pub open spec fn decimal(n: int) -> Seq<char> {
    if n < 0 {
        seq!['-'] + digits((-n) as nat)
    } else {
        digits(n as nat)
    }
}

/// The UTF-8 bytes of the decimal numeral of an integer.
pub open spec fn decimal_bytes(n: int) -> Seq<u8> {
    encode_utf8(decimal(n))
}

/// Whether a byte is an ASCII decimal digit.
pub open spec fn is_digit(b: u8) -> bool {
    48 <= b <= 57
}

/// Whether a text is made of ASCII decimal digits alone.
pub open spec fn all_digits(s: Seq<u8>) -> bool {
    forall|i: int| 0 <= i < s.len() ==> is_digit(#[trigger] s[i])
}

/// The number that a row of ASCII digits stands for, leading zeros allowed.
pub open spec fn number(s: Seq<u8>) -> nat
    decreases s.len(),
{
    if s.len() == 0 {
        0
    } else {
        number(s.drop_last()) * 10 + (s.last() - 48) as nat
    }
}

/// What the numeral of a natural number looks like.
pub proof fn lemma_digits(n: nat)
    ensures
        digits(n).len() > 0,
        forall|i: int| 0 <= i < digits(n).len() ==> '0' <= #[trigger] digits(n)[i] <= '9',
        encode_utf8(digits(n)).len() == digits(n).len(),
        all_digits(encode_utf8(digits(n))),
        number(encode_utf8(digits(n))) == n,
        n > 0 ==> encode_utf8(digits(n))[0] != 48,
    decreases n,
{
    if n >= 10 {
        lemma_digits(n / 10);
    }
    is_ascii_chars_encode_utf8(digits(n));
    let b = encode_utf8(digits(n));
    if n < 10 {
        assert(b.drop_last() =~= Seq::<u8>::empty());
        assert(number(b.drop_last()) == 0);
    } else {
        assert(b.drop_last() =~= encode_utf8(digits(n / 10))) by {
            is_ascii_chars_encode_utf8(digits(n / 10));
        }
    }
}

/// A number with a bounded value has a bounded count of digits.
pub proof fn lemma_digits_len(n: nat, k: nat)
    requires
        k > 0,
        n < vstd::arithmetic::power::pow(10, k),
    ensures
        digits(n).len() <= k,
    decreases k,
{
    reveal(vstd::arithmetic::power::pow);
    if n >= 10 {
        if k == 1 {
            assert(vstd::arithmetic::power::pow(10, 0) == 1);
        }
        assert(n / 10 < vstd::arithmetic::power::pow(10, (k - 1) as nat));
        lemma_digits_len(n / 10, (k - 1) as nat);
    }
}

/// What the numeral of an integer looks like.
pub proof fn lemma_decimal(n: int)
    ensures
        decimal(n).len() > 0,
        decimal_bytes(n).len() == decimal(n).len(),
        n >= 0 ==> all_digits(decimal_bytes(n)) && number(decimal_bytes(n)) == n,
        n > 0 ==> decimal_bytes(n)[0] != 48,
        n == 0 ==> decimal_bytes(n).len() == 1,
        n < 0 ==> {
            &&& decimal_bytes(n).len() > 1
            &&& decimal_bytes(n)[0] == 45
            &&& all_digits(decimal_bytes(n).skip(1))
            &&& number(decimal_bytes(n).skip(1)) == -n
        },
        is_digit(decimal_bytes(n)[0]) || decimal_bytes(n)[0] == 45,
{
    if n >= 0 {
        lemma_digits(n as nat);
    } else {
        lemma_digits((-n) as nat);
        let d = digits((-n) as nat);
        is_ascii_chars_encode_utf8(decimal(n));
        assert(decimal_bytes(n).skip(1) =~= encode_utf8(d)) by {
            is_ascii_chars_encode_utf8(d);
        }
    }
}

/// Two integers with the same numeral are the same.
pub proof fn lemma_decimal_injective(m: int, n: int)
    requires
        decimal_bytes(m) == decimal_bytes(n),
    ensures
        m == n,
{
    lemma_decimal(m);
    lemma_decimal(n);
}

/// The decimal numeral of an integer, written by `itoa::Buffer::format`, which formats an
/// integer as its shortest decimal text with a minus sign in front of a negative one.
#[verifier::external_body]
pub(crate) fn format_integer(n: i128) -> (text: String)
    ensures
        text@ == decimal(n as int),
{
    itoa::Buffer::new().format(n).to_owned()
}

} // verus!
