//! Address literals: `0x…` hex, `0b…` binary, `0o…` octal, else decimal,
//! case-insensitive, with a proof that formatting round-trips.
use vstd::prelude::*;

use crate::error::ErrorKind;
use crate::numfmt::{
    digit_val, lemma_digits_have_val, lemma_radix_chars_digits, lemma_radix_chars_len,
    lemma_radix_round_trip, lemma_radix_val_prefix_monotone, radix_chars, radix_val,
};

verus! {

/// What a run of digits parses to: the numeral's value when every character
/// is a digit of the base and the value fits a machine word, else a parse
/// error.
pub open spec fn parse_radix_spec(s: Seq<char>, base: int) -> Result<u64, ErrorKind> {
    match radix_val(s, base) {
        Some(v) => if v <= u64::MAX {
            Ok(v as u64)
        } else {
            Err(ErrorKind::InvalidAddress)
        },
        None => Err(ErrorKind::InvalidAddress),
    }
}

/// What parsing an address literal yields: a `0x`, `0b` or `0o` prefix picks
/// the base, anything else is decimal; the empty string is its own error.
pub open spec fn parse_addr_spec(s: Seq<char>) -> Result<u64, ErrorKind> {
    if s.len() == 0 {
        Err(ErrorKind::EmptyAddress)
    } else if s.len() >= 2 && s[0] == '0' && (s[1] == 'x' || s[1] == 'X') {
        parse_radix_spec(s.skip(2), 16)
    } else if s.len() >= 2 && s[0] == '0' && (s[1] == 'b' || s[1] == 'B') {
        parse_radix_spec(s.skip(2), 2)
    } else if s.len() >= 2 && s[0] == '0' && (s[1] == 'o' || s[1] == 'O') {
        parse_radix_spec(s.skip(2), 8)
    } else {
        parse_radix_spec(s, 10)
    }
}

/// A numeral with a character that is no digit of the base has no value.
proof fn lemma_radix_val_bad_digit(s: Seq<char>, base: int, j: int)
    requires
        0 <= j < s.len(),
        !(0 <= digit_val(s[j]) < base),
    ensures
        radix_val(s, base) is None,
    decreases s.len(),
{
    if s.len() > 1 && j < s.len() - 1 {
        let t = s.drop_last();
        assert(t[j] == s[j]);
        lemma_radix_val_bad_digit(t, base, j);
    }
}

/// Once a prefix of the digits already exceeds the largest machine word,
/// the whole numeral has no value or exceeds it too.
proof fn lemma_radix_val_overflow_suffix(s: Seq<char>, base: int, k: int)
    requires
        2 <= base <= 16,
        1 <= k <= s.len(),
        forall|j: int| 0 <= j < k ==> 0 <= digit_val(#[trigger] s[j]) < base,
        radix_val(s.take(k), base) is Some,
        radix_val(s.take(k), base)->Some_0 > u64::MAX,
    ensures
        radix_val(s, base) is None || radix_val(s, base)->Some_0 > u64::MAX,
{
    if forall|j: int| 0 <= j < s.len() ==> 0 <= digit_val(#[trigger] s[j]) < base {
        lemma_radix_val_prefix_monotone(s, base, k);
    } else {
        let j = choose|j: int| 0 <= j < s.len() && !(0 <= digit_val(#[trigger] s[j]) < base);
        lemma_radix_val_bad_digit(s, base, j);
    }
}

/// The digit value a character stands for in bases up to 16, if any.
fn char_digit16(c: char) -> (d: Option<u8>)
    ensures
        match d {
            Some(v) => digit_val(c) == v && 0 <= v < 16,
            None => digit_val(c) == -1,
        },
{
    match c {
        '0' => Some(0),
        '1' => Some(1),
        '2' => Some(2),
        '3' => Some(3),
        '4' => Some(4),
        '5' => Some(5),
        '6' => Some(6),
        '7' => Some(7),
        '8' => Some(8),
        '9' => Some(9),
        'a' | 'A' => Some(10),
        'b' | 'B' => Some(11),
        'c' | 'C' => Some(12),
        'd' | 'D' => Some(13),
        'e' | 'E' => Some(14),
        'f' | 'F' => Some(15),
        _ => None,
    }
}

/// Parse the digits of `arg` from position `from` to the end as a numeral
/// in base `base`.
fn parse_radix_u64(arg: &str, from: usize, base: u64) -> (r: Result<u64, ErrorKind>)
    requires
        2 <= base <= 16,
        from <= arg@.len(),
    ensures
        r == parse_radix_spec(arg@.skip(from as int), base as int),
{
    let ghost sub = arg@.skip(from as int);
    let len = arg.unicode_len();
    if from == len {
        proof {
            assert(sub.len() == 0);
        }
        return Err(ErrorKind::InvalidAddress);
    }
    let mut value: u64 = 0;
    let mut m: usize = from;
    while m < len
        invariant
            from <= m <= len,
            len == arg@.len(),
            2 <= base <= 16,
            sub =~= arg@.skip(from as int),
            forall|j: int| from <= j < m ==> 0 <= digit_val(#[trigger] arg@[j]) < base,
            m > from ==> radix_val(sub.take(m - from), base as int) == Some(value as int),
            m == from ==> value == 0,
        decreases len - m,
    {
        let c = arg.get_char(m);
        proof {
            assert(sub[m - from] == arg@[m as int]);
        }
        let d = match char_digit16(c) {
            Some(d) if (d as u64) < base => d,
            _ => {
                proof {
                    lemma_radix_val_bad_digit(sub, base as int, m - from);
                }
                return Err(ErrorKind::InvalidAddress);
            },
        };
        proof {
            let p = sub.take(m - from + 1);
            assert(p.drop_last() =~= sub.take(m - from));
            assert(p.last() == sub[m - from]);
            if m > from {
                assert(radix_val(p, base as int) == Some(
                    value as int * base as int + digit_val(c),
                ));
            } else {
                assert(radix_val(p, base as int) == Some(digit_val(c)));
            }
        }
        let next: Option<u64> = match value.checked_mul(base) {
            Some(vb) => vb.checked_add(d as u64),
            None => None,
        };
        match next {
            Some(v) => {
                value = v;
            },
            None => {
                proof {
                    let p = sub.take(m - from + 1);
                    assert(value as int * base as int + digit_val(c) > u64::MAX);
                    assert(radix_val(p, base as int)->Some_0 > u64::MAX);
                    lemma_radix_val_overflow_suffix(sub, base as int, m - from + 1);
                }
                return Err(ErrorKind::InvalidAddress);
            },
        }
        m += 1;
    }
    proof {
        assert(sub.take(len - from) =~= sub);
    }
    Ok(value)
}

/// Parse a plain decimal number.
pub fn parse_u64_dec(arg: &str) -> (r: Result<u64, ErrorKind>)
    ensures
        r == parse_radix_spec(arg@, 10),
{
    proof {
        assert(arg@.skip(0) =~= arg@);
    }
    parse_radix_u64(arg, 0, 10)
}

/// Parse an address literal.
pub fn parse_addr(arg: &str) -> (r: Result<u64, ErrorKind>)
    ensures
        r == parse_addr_spec(arg@),
{
    let len = arg.unicode_len();
    if len == 0 {
        return Err(ErrorKind::EmptyAddress);
    }
    if len >= 2 && arg.get_char(0) == '0' {
        let c1 = arg.get_char(1);
        if c1 == 'x' || c1 == 'X' {
            return parse_radix_u64(arg, 2, 16);
        }
        if c1 == 'b' || c1 == 'B' {
            return parse_radix_u64(arg, 2, 2);
        }
        if c1 == 'o' || c1 == 'O' {
            return parse_radix_u64(arg, 2, 8);
        }
    }
    proof {
        assert(arg@.skip(0) =~= arg@);
    }
    parse_radix_u64(arg, 0, 10)
}

/// A rendered numeral with a radix prefix parses back to the number:
/// the address-literal grammar round-trips with the formatter in every base
/// it accepts.
pub proof fn lemma_parse_addr_round_trip(n: u64)
    ensures
        parse_addr_spec(seq!['0', 'x'] + radix_chars(n as int, 16)) == Ok::<u64, ErrorKind>(n),
        parse_addr_spec(seq!['0', 'b'] + radix_chars(n as int, 2)) == Ok::<u64, ErrorKind>(n),
        parse_addr_spec(seq!['0', 'o'] + radix_chars(n as int, 8)) == Ok::<u64, ErrorKind>(n),
        parse_addr_spec(radix_chars(n as int, 10)) == Ok::<u64, ErrorKind>(n),
{
    lemma_prefixed_round_trip(n, 'x', 16);
    lemma_prefixed_round_trip(n, 'b', 2);
    lemma_prefixed_round_trip(n, 'o', 8);
    lemma_decimal_round_trip(n);
}

/// The numeral for `n` in `base`, preceded by `'0'` and the base's letter,
/// parses back to `n`.
proof fn lemma_prefixed_round_trip(n: u64, letter: char, base: int)
    requires
        letter == 'x' && base == 16 || letter == 'b' && base == 2 || letter == 'o' && base == 8,
    ensures
        parse_addr_spec(seq!['0', letter] + radix_chars(n as int, base)) == Ok::<u64, ErrorKind>(n),
{
    let digits = radix_chars(n as int, base);
    let s = seq!['0', letter] + digits;
    lemma_radix_chars_len(n as int, base);
    assert(s.len() >= 3);
    assert(s[0] == '0');
    assert(s[1] == letter);
    assert(s.skip(2) =~= digits);
    lemma_radix_round_trip(n as int, base);
}

/// The decimal numeral for `n` parses back to `n`.
proof fn lemma_decimal_round_trip(n: u64)
    ensures
        parse_addr_spec(radix_chars(n as int, 10)) == Ok::<u64, ErrorKind>(n),
{
    let s = radix_chars(n as int, 10);
    lemma_radix_chars_len(n as int, 10);
    lemma_radix_chars_digits(n as int, 10);
    lemma_radix_round_trip(n as int, 10);
    if s.len() >= 2 {
        // The second character is a decimal digit, so it is none of the
        // base letters.
        assert(0 <= digit_val(s[1]) < 10);
        assert(s[1] != 'x' && s[1] != 'X' && s[1] != 'b' && s[1] != 'B' && s[1] != 'o' && s[1]
            != 'O');
    }
}

} // verus!
