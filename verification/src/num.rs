//! Numbers in text: writing them in decimal and hexadecimal, and reading them back.

use crate::text::{chars_of, string_of};
use vstd::prelude::*;
use vstd::slice::slice_subrange;

verus! {

/// The character for one digit, lower case above nine.
pub open spec fn digit_char(d: int) -> char {
    if d < 10 {
        (48 + d) as char
    } else {
        (87 + d) as char
    }
}

/// The numeral of `n` in the radix, without leading zeros.
pub open spec fn numeral(n: nat, radix: nat) -> Seq<char>
    decreases n,
{
    if radix < 2 || n < radix {
        seq![digit_char(n as int)]
    } else {
        proof {
            assert(n / radix < n) by (nonlinear_arith)
                requires
                    n >= radix >= 2,
            ;
        }
        numeral(n / radix, radix).push(digit_char((n % radix) as int))
    }
}

pub open spec fn decimal(n: nat) -> Seq<char> {
    numeral(n, 10)
}

pub open spec fn hexadecimal(n: nat) -> Seq<char> {
    numeral(n, 16)
}

/// The value of a digit in the radix, in either case.
pub open spec fn digit_value(c: char, radix: nat) -> Option<nat> {
    let v = if '0' <= c <= '9' {
        c as int - 48
    } else if 'a' <= c <= 'z' {
        c as int - 87
    } else if 'A' <= c <= 'Z' {
        c as int - 55
    } else {
        -1
    };
    if 0 <= v < radix {
        Some(v as nat)
    } else {
        None
    }
}

/// The value of a run of digits; none when a character is not a digit.
pub open spec fn digits_value(s: Seq<char>, radix: nat) -> Option<nat>
    decreases s.len(),
{
    if s.len() == 0 {
        Some(0)
    } else {
        match (digits_value(s.drop_last(), radix), digit_value(s.last(), radix)) {
            (Some(v), Some(d)) => Some(v * radix + d),
            _ => None,
        }
    }
}

/// The number a text holds: an optional `+`, then at least one digit, and nothing else, of a
/// value within the limit.
pub open spec fn number(s: Seq<char>, radix: nat, limit: nat) -> Option<nat> {
    let body = if s.len() > 0 && s[0] == '+' {
        s.skip(1)
    } else {
        s
    };
    if body.len() == 0 {
        None
    } else {
        match digits_value(body, radix) {
            Some(v) => if v <= limit {
                Some(v)
            } else {
                None
            },
            None => None,
        }
    }
}

fn digit_to_char(d: u64) -> (r: char)
    requires
        d < 36,
    ensures
        r == digit_char(d as int),
{
    let b: u8 = d as u8;
    if b < 10 {
        (48 + b) as char
    } else {
        (87 + b) as char
    }
}

fn numeral_chars(n: u64, radix: u64) -> (r: Vec<char>)
    requires
        2 <= radix <= 36,
    ensures
        r@ == numeral(n as nat, radix as nat),
    decreases n,
{
    if n < radix {
        let mut r: Vec<char> = Vec::new();
        r.push(digit_to_char(n));
        r
    } else {
        assert(n / radix < n) by (nonlinear_arith)
            requires
                n >= radix >= 2,
        ;
        assert(n % radix < radix) by (nonlinear_arith)
            requires
                radix >= 2,
        ;
        let mut r = numeral_chars(n / radix, radix);
        r.push(digit_to_char(n % radix));
        r
    }
}

pub fn decimal_of(n: u64) -> (r: String)
    ensures
        r@ == decimal(n as nat),
{
    let v = numeral_chars(n, 10);
    string_of(v.as_slice())
}

pub fn hexadecimal_of(n: u64) -> (r: String)
    ensures
        r@ == hexadecimal(n as nat),
{
    let v = numeral_chars(n, 16);
    string_of(v.as_slice())
}

fn value_of_digit(c: char, radix: u64) -> (r: Option<u64>)
    requires
        radix <= 36,
    ensures
        match r {
            Some(v) => digit_value(c, radix as nat) == Some(v as nat) && v < radix,
            None => digit_value(c, radix as nat) is None,
        },
{
    let n: u32 = c as u32;
    let v: u64 = if '0' <= c && c <= '9' {
        (n - 48) as u64
    } else if 'a' <= c && c <= 'z' {
        (n - 87) as u64
    } else if 'A' <= c && c <= 'Z' {
        (n - 55) as u64
    } else {
        return None;
    };
    if v < radix {
        Some(v)
    } else {
        None
    }
}

/// More digits never make a number smaller.
proof fn lemma_value_grows(s: Seq<char>, radix: nat, k: int)
    requires
        0 <= k <= s.len(),
        radix >= 1,
        digits_value(s, radix) is Some,
    ensures
        digits_value(s.take(k), radix) is Some,
        digits_value(s.take(k), radix)->0 <= digits_value(s, radix)->0,
    decreases s.len(),
{
    if k == s.len() {
        assert(s.take(k) == s);
    } else {
        lemma_value_grows(s.drop_last(), radix, k);
        assert(s.drop_last().take(k) == s.take(k));
        let v = digits_value(s.drop_last(), radix)->0;
        assert(v * radix >= v) by (nonlinear_arith)
            requires
                radix >= 1,
                v >= 0,
        ;
    }
}

/// A text with a character that is not a digit has no value.
proof fn lemma_value_none(s: Seq<char>, radix: nat, k: int)
    requires
        0 <= k <= s.len(),
        digits_value(s.take(k), radix) is None,
    ensures
        digits_value(s, radix) is None,
    decreases s.len(),
{
    if k == s.len() {
        assert(s.take(k) == s);
    } else {
        assert(s.drop_last().take(k) == s.take(k));
        lemma_value_none(s.drop_last(), radix, k);
    }
}

pub fn parse_number(s: &[char], radix: u64, limit: u64) -> (r: Option<u64>)
    requires
        2 <= radix <= 36,
        limit <= u32::MAX,
    ensures
        match r {
            Some(v) => number(s@, radix as nat, limit as nat) == Some(v as nat) && v <= limit,
            None => number(s@, radix as nat, limit as nat) is None,
        },
{
    let start: usize = if s.len() > 0 && s[0] == '+' {
        1
    } else {
        0
    };
    let body = slice_subrange(s, start, s.len());
    assert(body@ == (if s@.len() > 0 && s@[0] == '+' {
        s@.skip(1)
    } else {
        s@
    }));
    if body.len() == 0 {
        return None;
    }
    let mut v: u64 = 0;
    let mut i: usize = 0;
    while i < body.len()
        invariant
            i <= body.len(),
            2 <= radix <= 36,
            v <= limit <= u32::MAX,
            digits_value(body@.take(i as int), radix as nat) == Some(v as nat),
            number(s@, radix as nat, limit as nat) == (match digits_value(body@, radix as nat) {
                Some(v) => if v <= limit {
                    Some(v)
                } else {
                    None
                },
                None => None,
            }),
        decreases body.len() - i,
    {
        assert(body@.take(i + 1).drop_last() == body@.take(i as int));
        match value_of_digit(body[i], radix) {
            None => {
                proof {
                    lemma_value_none(body@, radix as nat, i + 1);
                }
                return None;
            },
            Some(d) => {
                assert(v * radix + d <= u32::MAX * 36 + 36) by (nonlinear_arith)
                    requires
                        v <= u32::MAX,
                        radix <= 36,
                        d < radix,
                ;
                let next: u64 = v * radix + d;
                if next > limit {
                    proof {
                        if digits_value(body@, radix as nat) is Some {
                            lemma_value_grows(body@, radix as nat, i + 1);
                        }
                    }
                    return None;
                }
                v = next;
            },
        }
        i += 1;
    }
    assert(body@.take(i as int) == body@);
    Some(v)
}

/// A port number: sixteen bits in decimal.
pub open spec fn port_number(s: Seq<char>) -> Option<nat> {
    number(s, 10, 0xffff)
}

pub fn parse_port(s: &[char]) -> (r: Option<u16>)
    ensures
        match r {
            Some(v) => port_number(s@) == Some(v as nat),
            None => port_number(s@) is None,
        },
{
    match parse_number(s, 10, 0xffff) {
        Some(v) => Some(v as u16),
        None => None,
    }
}

/// A process id or a version: thirty-two bits in decimal.
pub open spec fn word_number(s: Seq<char>) -> Option<nat> {
    number(s, 10, 0xffff_ffff)
}

pub fn parse_word(s: &[char]) -> (r: Option<u32>)
    ensures
        match r {
            Some(v) => word_number(s@) == Some(v as nat),
            None => word_number(s@) is None,
        },
{
    match parse_number(s, 10, 0xffff_ffff) {
        Some(v) => Some(v as u32),
        None => None,
    }
}

// ---------------------------------------------------------------------------
// Writing a number and reading it again
// ---------------------------------------------------------------------------

/// Every character of a decimal numeral is a digit.
pub proof fn lemma_decimal_digits(n: nat)
    ensures
        decimal(n).len() > 0,
        forall|i: int| 0 <= i < decimal(n).len() ==> '0' <= #[trigger] decimal(n)[i] <= '9',
        digits_value(decimal(n), 10) == Some(n),
    decreases n,
{
    if n < 10 {
        assert(decimal(n).drop_last() == Seq::<char>::empty());
        assert(digits_value(decimal(n).drop_last(), 10) == Some(0nat));
    } else {
        lemma_decimal_digits(n / 10);
        assert(decimal(n).drop_last() == decimal(n / 10));
    }
}

/// A port written in decimal reads back as itself.
pub proof fn lemma_port_round_trip(port: u16)
    ensures
        port_number(decimal(port as nat)) == Some(port as nat),
{
    lemma_decimal_digits(port as nat);
    assert(decimal(port as nat)[0] != '+');
}

/// Leading zeros up to a width, as the lengths of a framed message are written.
pub open spec fn zero_padded(s: Seq<char>, width: nat) -> Seq<char>
    decreases width - s.len(),
{
    if s.len() >= width {
        s
    } else {
        zero_padded(seq!['0'] + s, width)
    }
}

pub fn pad_zeros(s: String, width: usize) -> (r: String)
    ensures
        r@ == zero_padded(s@, width as nat),
    decreases width - s@.len(),
{
    let n: usize = chars_of(s.as_str()).len();
    if n >= width {
        s
    } else {
        proof {
            reveal_strlit("0");
            assert("0"@ == seq!['0']);
        }
        pad_zeros("0".to_owned().concat(s.as_str()), width)
    }
}

/// A hexadecimal numeral holds hexadecimal digits of its number's value.
proof fn lemma_hexadecimal_digits(n: nat)
    ensures
        hexadecimal(n).len() > 0,
        hexadecimal(n)[0] != '+',
        digits_value(hexadecimal(n), 16) == Some(n),
        n < 0x10 ==> hexadecimal(n).len() == 1,
        n < 0x1_0000 ==> hexadecimal(n).len() <= 4,
        n < 0x1000 ==> hexadecimal(n).len() <= 3,
        n < 0x100 ==> hexadecimal(n).len() <= 2,
    decreases n,
{
    if n < 16 {
        assert(hexadecimal(n).drop_last() == Seq::<char>::empty());
        assert(digits_value(hexadecimal(n).drop_last(), 16) == Some(0nat));
    } else {
        lemma_hexadecimal_digits(n / 16);
        assert(hexadecimal(n).drop_last() == hexadecimal(n / 16));
        assert(hexadecimal(n)[0] == hexadecimal(n / 16)[0]);
    }
}

/// Leading zeros change no value.
proof fn lemma_leading_zero(s: Seq<char>)
    ensures
        digits_value(seq!['0'] + s, 16) == digits_value(s, 16),
    decreases s.len(),
{
    let t = seq!['0'] + s;
    if s.len() == 0 {
        assert(t.drop_last() == Seq::<char>::empty());
        assert(digits_value(t.drop_last(), 16) == Some(0nat));
    } else {
        lemma_leading_zero(s.drop_last());
        assert(t.drop_last() == seq!['0'] + s.drop_last());
        assert(t.last() == s.last());
    }
}

proof fn lemma_zero_padded(s: Seq<char>, width: nat)
    requires
        s.len() > 0,
        s[0] != '+',
    ensures
        digits_value(zero_padded(s, width), 16) == digits_value(s, 16),
        zero_padded(s, width).len() == if s.len() >= width {
            s.len()
        } else {
            width
        },
        zero_padded(s, width)[0] != '+',
    decreases width - s.len(),
{
    if s.len() < width {
        lemma_leading_zero(s);
        lemma_zero_padded(seq!['0'] + s, width);
    }
}

/// A length written as four hexadecimal digits takes four characters and reads back as itself.
pub proof fn lemma_length_round_trip(n: nat)
    requires
        n <= 0xffff,
    ensures
        zero_padded(hexadecimal(n), 4).len() == 4,
        number(zero_padded(hexadecimal(n), 4), 16, 0xffff) == Some(n),
{
    lemma_hexadecimal_digits(n);
    lemma_zero_padded(hexadecimal(n), 4);
}

/// Every character of a hexadecimal numeral is a digit or one of the letters `a` to `f`.
pub proof fn lemma_hexadecimal_chars(n: nat)
    ensures
        forall|i: int|
            0 <= i < hexadecimal(n).len() ==> ('0' <= #[trigger] hexadecimal(n)[i] <= '9') || ('a'
                <= hexadecimal(n)[i] <= 'f'),
    decreases n,
{
    if n >= 16 {
        lemma_hexadecimal_chars(n / 16);
        assert(hexadecimal(n).drop_last() == hexadecimal(n / 16));
        assert forall|i: int| 0 <= i < hexadecimal(n).len() implies ('0' <= #[trigger] hexadecimal(
            n,
        )[i] <= '9') || ('a' <= hexadecimal(n)[i] <= 'f') by {
            if i < hexadecimal(n).len() - 1 {
                assert(hexadecimal(n)[i] == hexadecimal(n / 16)[i]);
            }
        }
    }
}

} // verus!
