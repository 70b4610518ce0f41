//! What numerals mean.

use crate::num::{
    decimal, digit_value, digits_value, hexadecimal, lemma_decimal_digits, number, numeral,
    port_number, word_number, zero_padded,
};
use vstd::prelude::*;

verus! {

/// A decimal numeral is read from the left: each digit is worth ten of the next, and there is no
/// zero in front.
pub proof fn a_decimal_is_read_by_tens(n: nat)
    ensures
        n < 10 ==> decimal(n) == seq![(48 + n) as char],
        n >= 10 ==> decimal(n) == decimal(n / 10).push((48 + n % 10) as char),
        decimal(n)[0] == '0' <==> n == 0,
    decreases n,
{
    if n >= 10 {
        a_decimal_is_read_by_tens(n / 10);
    }
}

/// A hexadecimal numeral is read by sixteens, with small letters.
pub proof fn a_hexadecimal_is_read_by_sixteens(n: nat)
    ensures
        n < 10 ==> hexadecimal(n) == seq![(48 + n) as char],
        10 <= n < 16 ==> hexadecimal(n) == seq![(97 + (n - 10)) as char],
        n >= 16 ==> hexadecimal(n) == hexadecimal(n / 16) + hexadecimal(n % 16),
{
    if n >= 16 {
        assert(hexadecimal(n / 16) + hexadecimal(n % 16) == hexadecimal(n / 16).push(
            hexadecimal(n % 16)[0],
        ));
    }
}

/// Different numbers are written differently.
pub proof fn numerals_tell_numbers_apart(a: nat, b: nat)
    ensures
        decimal(a) == decimal(b) ==> a == b,
{
    lemma_decimal_digits(a);
    lemma_decimal_digits(b);
}

/// A number that was written is read back where it is not over the limit, and only there. Nothing
/// else is read as a number: every character has to be a digit, but for a plus sign in front, and
/// there has to be one.
pub proof fn a_written_number_is_read_back(n: nat, s: Seq<char>, i: int)
    ensures
        port_number(decimal(n)) == (if n <= 65535 {
            Some(n)
        } else {
            None
        }),
        word_number(decimal(n)) == (if n <= 4294967295 {
            Some(n)
        } else {
            None
        }),
        port_number(Seq::<char>::empty()) is None,
        0 <= i < s.len() && !('0' <= s[i] <= '9') && !(i == 0 && s[i] == '+') ==> port_number(s)
            is None && word_number(s) is None,
{
    lemma_decimal_digits(n);
    assert(!(decimal(n)[0] == '+'));
    if 0 <= i < s.len() && !('0' <= s[i] <= '9') && !(i == 0 && s[i] == '+') {
        if s[0] == '+' {
            assert(s.skip(1)[i - 1] == s[i]);
            lemma_bad_digit(s.skip(1), i - 1);
        } else {
            lemma_bad_digit(s, i);
        }
    }
}

proof fn lemma_bad_digit(s: Seq<char>, i: int)
    requires
        0 <= i < s.len(),
        !('0' <= s[i] <= '9'),
    ensures
        digits_value(s, 10) is None,
    decreases s.len(),
{
    if i < s.len() - 1 {
        assert(s.drop_last()[i] == s[i]);
        lemma_bad_digit(s.drop_last(), i);
    } else {
        assert(digit_value(s.last(), 10) is None);
    }
}

/// Padding puts zeros in front, as many as are missing.
pub proof fn padding_puts_zeros_in_front(s: Seq<char>, width: nat)
    ensures
        s.len() >= width ==> zero_padded(s, width) == s,
        s.len() < width ==> {
            let p = zero_padded(s, width);
            &&& p.len() == width
            &&& p.skip(width - s.len()) == s
            &&& forall|i: int| 0 <= i < width - s.len() ==> p[i] == '0'
        },
    decreases width - s.len(),
{
    if s.len() < width {
        let t = seq!['0'] + s;
        padding_puts_zeros_in_front(t, width);
        let p = zero_padded(s, width);
        assert(p == zero_padded(t, width));
        if t.len() < width {
            assert(p.skip(width - t.len()) == t);
            assert(p.skip(width - s.len()) == s) by {
                assert(p.skip(width - s.len()) == t.skip(1));
                assert(t.skip(1) == s);
            }
            assert forall|i: int| 0 <= i < width - s.len() implies p[i] == '0' by {
                if i == width - t.len() {
                    assert(p.skip(width - t.len())[0] == t[0]);
                }
            }
        } else {
            assert(p == t);
            assert(t.skip(1) == s);
        }
    }
}

/// Hexadecimal digits are read with small letters and with large ones, each worth sixteen of the
/// next.
pub proof fn a_hexadecimal_digit_is_read(s: Seq<char>, c: char, limit: nat)
    requires
        s.len() > 0,
        s[0] != '+',
        digits_value(s, 16) is Some,
        digits_value(s, 16)->0 * 16 + 15 <= limit,
    ensures
        number(s, 16, limit) == digits_value(s, 16),
        '0' <= c <= '9' ==> number(s.push(c), 16, limit) == Some(
            (digits_value(s, 16)->0 * 16 + (c as int - 48)) as nat,
        ),
        'a' <= c <= 'f' ==> number(s.push(c), 16, limit) == Some(
            (digits_value(s, 16)->0 * 16 + (c as int - 87)) as nat,
        ),
        'A' <= c <= 'F' ==> number(s.push(c), 16, limit) == Some(
            (digits_value(s, 16)->0 * 16 + (c as int - 55)) as nat,
        ),
        !('0' <= c <= '9') && !('a' <= c <= 'f') && !('A' <= c <= 'F') ==> number(
            s.push(c),
            16,
            limit,
        ) is None,
{
    let t = s.push(c);
    assert(t.drop_last() =~= s);
    assert(t[0] == s[0]);
}

/// The ports and the numbers that are read are those that were written.
pub proof fn what_is_read_is_what_was_written(
    n: nat,
    s: &[char],
    port: Option<u16>,
    word: Option<u32>,
)
    requires
        s@ == decimal(n),
        call_ensures(crate::num::parse_port, (s,), port),
        call_ensures(crate::num::parse_word, (s,), word),
    ensures
        n <= 65535 ==> (port matches Some(p) && p == n),
        n > 65535 ==> port is None,
        n <= 4294967295 ==> (word matches Some(w) && w == n),
        n > 4294967295 ==> word is None,
{
    a_written_number_is_read_back(n, s@, 0);
}

} // verus!
