//! Rendering of unsigned integers as numerals in bases 2, 8, 10 and 16, and
//! parsing back, with round-trip proofs.
use vstd::prelude::*;

verus! {

/// The digit character for a value below 16, lower case.
pub open spec fn digit_char(d: int) -> char {
    if d == 0 {
        '0'
    } else if d == 1 {
        '1'
    } else if d == 2 {
        '2'
    } else if d == 3 {
        '3'
    } else if d == 4 {
        '4'
    } else if d == 5 {
        '5'
    } else if d == 6 {
        '6'
    } else if d == 7 {
        '7'
    } else if d == 8 {
        '8'
    } else if d == 9 {
        '9'
    } else if d == 10 {
        'a'
    } else if d == 11 {
        'b'
    } else if d == 12 {
        'c'
    } else if d == 13 {
        'd'
    } else if d == 14 {
        'e'
    } else {
        'f'
    }
}

/// The value of a digit character in bases up to 16, upper or lower case;
/// -1 when the character is no such digit.
pub open spec fn digit_val(c: char) -> int {
    if c == '0' {
        0
    } else if c == '1' {
        1
    } else if c == '2' {
        2
    } else if c == '3' {
        3
    } else if c == '4' {
        4
    } else if c == '5' {
        5
    } else if c == '6' {
        6
    } else if c == '7' {
        7
    } else if c == '8' {
        8
    } else if c == '9' {
        9
    } else if c == 'a' || c == 'A' {
        10
    } else if c == 'b' || c == 'B' {
        11
    } else if c == 'c' || c == 'C' {
        12
    } else if c == 'd' || c == 'D' {
        13
    } else if c == 'e' || c == 'E' {
        14
    } else if c == 'f' || c == 'F' {
        15
    } else {
        -1
    }
}

/// The numeral for `n` in base `base`, most significant digit first,
/// without any sign or radix prefix.
pub open spec fn radix_chars(n: int, base: int) -> Seq<char>
    decreases n,
    via radix_chars_decreases
{
    if base < 2 || n < base {
        seq![digit_char(n)]
    } else {
        radix_chars(n / base, base).push(digit_char(n % base))
    }
}

#[via_fn]
proof fn radix_chars_decreases(n: int, base: int) {
    if !(base < 2 || n < base) {
        lemma_div_shrinks(n, base);
    }
}

/// Dividing a number at least as large as the base (itself at least two)
/// by the base gives a smaller, non-negative number.
proof fn lemma_div_shrinks(n: int, base: int)
    requires
        2 <= base <= n,
    ensures
        0 <= n / base < n,
{
    vstd::arithmetic::div_mod::lemma_div_pos_is_pos(n, base);
    assert(n / base < n) by (nonlinear_arith)
        requires
            n >= base,
            base >= 2,
    ;
}

/// The value of a numeral in base `base`, most significant digit first:
/// `None` when the numeral is empty or holds a character that is no digit
/// of the base.
pub open spec fn radix_val(s: Seq<char>, base: int) -> Option<int>
    decreases s.len(),
{
    if s.len() == 0 {
        None
    } else if s.len() == 1 {
        if 0 <= digit_val(s[0]) < base {
            Some(digit_val(s[0]))
        } else {
            None
        }
    } else {
        if 0 <= digit_val(s.last()) < base {
            match radix_val(s.drop_last(), base) {
                Some(v) => Some(v * base + digit_val(s.last())),
                None => None,
            }
        } else {
            None
        }
    }
}

/// A numeral never renders as the empty sequence.
pub proof fn lemma_radix_chars_len(n: int, base: int)
    ensures
        radix_chars(n, base).len() >= 1,
    decreases n,
{
    if !(base < 2 || n < base) {
        lemma_div_shrinks(n, base);
        lemma_radix_chars_len(n / base, base);
    }
}

/// Every character of a numeral for a non-negative number is a digit of the base.
pub proof fn lemma_radix_chars_digits(n: int, base: int)
    requires
        2 <= base <= 16,
        0 <= n,
    ensures
        forall|i: int|
            0 <= i < radix_chars(n, base).len() ==> 0 <= digit_val(
                #[trigger] radix_chars(n, base)[i],
            ) < base,
    decreases n,
{
    if n < base {
        assert(digit_val(digit_char(n)) == n);
    } else {
        lemma_div_shrinks(n, base);
        vstd::arithmetic::div_mod::lemma_mod_bound(n, base);
        lemma_radix_chars_digits(n / base, base);
        let s = radix_chars(n, base);
        let p = radix_chars(n / base, base);
        let d = digit_char(n % base);
        assert(s == p.push(d));
        assert(digit_val(d) == n % base);
        assert forall|i: int| 0 <= i < s.len() implies 0 <= digit_val(#[trigger] s[i]) < base by {
            if i < p.len() {
                assert(s[i] == p[i]);
            } else {
                assert(s[i] == d);
            }
        }
    }
}

/// Formatting then parsing a number in the same base gives the number back.
pub proof fn lemma_radix_round_trip(n: int, base: int)
    requires
        2 <= base <= 16,
        0 <= n,
    ensures
        radix_val(radix_chars(n, base), base) == Some(n),
    decreases n,
{
    if n < base {
        assert(digit_val(digit_char(n)) == n);
    } else {
        lemma_div_shrinks(n, base);
        lemma_radix_round_trip(n / base, base);
        lemma_radix_chars_len(n / base, base);
        vstd::arithmetic::div_mod::lemma_mod_bound(n, base);
        let s = radix_chars(n, base);
        let p = radix_chars(n / base, base);
        let d = digit_char(n % base);
        assert(s == p.push(d));
        assert(s.len() >= 2);
        assert(s.last() == d);
        assert(s.drop_last() =~= p);
        assert(digit_val(d) == n % base);
        assert(radix_val(s, base) == Some((n / base) * base + (n % base)));
        assert((n / base) * base + (n % base) == n) by {
            vstd::arithmetic::div_mod::lemma_fundamental_div_mod(n, base);
        }
    }
}

/// Every all-digit, non-empty numeral has a non-negative value.
pub proof fn lemma_digits_have_val(s: Seq<char>, base: int)
    requires
        2 <= base <= 16,
        s.len() >= 1,
        forall|j: int| 0 <= j < s.len() ==> 0 <= digit_val(#[trigger] s[j]) < base,
    ensures
        radix_val(s, base) is Some,
        radix_val(s, base)->Some_0 >= 0,
    decreases s.len(),
{
    if s.len() > 1 {
        let t = s.drop_last();
        assert(forall|j: int| 0 <= j < t.len() ==> 0 <= digit_val(#[trigger] t[j]) < base);
        lemma_digits_have_val(t, base);
        let v = radix_val(t, base)->Some_0;
        assert(v * base >= 0) by (nonlinear_arith)
            requires
                v >= 0,
                base >= 2,
        ;
    }
}

/// For an all-digit numeral, the value of any non-empty prefix is no more
/// than the value of the whole.
pub proof fn lemma_radix_val_prefix_monotone(s: Seq<char>, base: int, k: int)
    requires
        2 <= base <= 16,
        1 <= k <= s.len(),
        forall|j: int| 0 <= j < s.len() ==> 0 <= digit_val(#[trigger] s[j]) < base,
    ensures
        radix_val(s, base) is Some,
        radix_val(s.take(k), base) is Some,
        radix_val(s, base)->Some_0 >= radix_val(s.take(k), base)->Some_0,
    decreases s.len() - k,
{
    lemma_digits_have_val(s, base);
    assert(forall|j: int| 0 <= j < k ==> 0 <= digit_val(#[trigger] s.take(k)[j]) < base);
    lemma_digits_have_val(s.take(k), base);
    if k < s.len() {
        lemma_radix_val_prefix_monotone(s, base, k + 1);
        let a = s.take(k);
        let b = s.take(k + 1);
        assert(b.drop_last() =~= a);
        assert(b.last() == s[k]);
        let va = radix_val(a, base)->Some_0;
        assert(radix_val(b, base)->Some_0 == va * base + digit_val(s[k]));
        assert(va * base >= va) by (nonlinear_arith)
            requires
                va >= 0,
                base >= 2,
        ;
    } else {
        assert(s.take(k) =~= s);
    }
}

/// A one-character string for the digit `d`.
fn digit_str(d: u64) -> (s: &'static str)
    requires
        d < 16,
    ensures
        s@ =~= seq![digit_char(d as int)],
{
    proof {
        reveal_strlit("0");
        reveal_strlit("1");
        reveal_strlit("2");
        reveal_strlit("3");
        reveal_strlit("4");
        reveal_strlit("5");
        reveal_strlit("6");
        reveal_strlit("7");
        reveal_strlit("8");
        reveal_strlit("9");
        reveal_strlit("a");
        reveal_strlit("b");
        reveal_strlit("c");
        reveal_strlit("d");
        reveal_strlit("e");
        reveal_strlit("f");
    }
    if d == 0 {
        "0"
    } else if d == 1 {
        "1"
    } else if d == 2 {
        "2"
    } else if d == 3 {
        "3"
    } else if d == 4 {
        "4"
    } else if d == 5 {
        "5"
    } else if d == 6 {
        "6"
    } else if d == 7 {
        "7"
    } else if d == 8 {
        "8"
    } else if d == 9 {
        "9"
    } else if d == 10 {
        "a"
    } else if d == 11 {
        "b"
    } else if d == 12 {
        "c"
    } else if d == 13 {
        "d"
    } else if d == 14 {
        "e"
    } else {
        "f"
    }
}

/// Render `n` as a numeral in base `base`, most significant digit first.
pub fn u64_to_radix(n: u64, base: u64) -> (s: String)
    requires
        2 <= base <= 16,
    ensures
        s@ =~= radix_chars(n as int, base as int),
    decreases n,
{
    if n < base {
        let s: String = String::from_str(digit_str(n));
        s
    } else {
        proof {
            vstd::arithmetic::div_mod::lemma_div_pos_is_pos(n as int, base as int);
            assert((n as int) / (base as int) < n as int) by (nonlinear_arith)
                requires
                    n as int >= base as int,
                    base as int >= 2,
            ;
            vstd::arithmetic::div_mod::lemma_mod_bound(n as int, base as int);
        }
        let mut s = u64_to_radix(n / base, base);
        s.append(digit_str(n % base));
        s
    }
}

/// The numeral left-padded with zeros to `width` characters; a numeral
/// already that wide or wider is unchanged.
pub open spec fn zero_pad(s: Seq<char>, width: int) -> Seq<char>
    decreases width - s.len(),
{
    if s.len() >= width {
        s
    } else {
        zero_pad(seq!['0'].add(s), width)
    }
}

/// The text right-padded with spaces to `width` characters; text already
/// that wide or wider is unchanged.
pub open spec fn right_pad(s: Seq<char>, width: int) -> Seq<char>
    decreases width - s.len(),
{
    if s.len() >= width {
        s
    } else {
        right_pad(s.push(' '), width)
    }
}

/// Right-pad the text with spaces to `width` characters.
pub fn pad_right(s: String, width: usize) -> (r: String)
    ensures
        r@ =~= right_pad(s@, width as int),
{
    let ghost orig = s@;
    let mut t = s;
    while t.unicode_len() < width
        invariant
            right_pad(t@, width as int) == right_pad(orig, width as int),
        decreases width as int - t@.len(),
    {
        crate::strutil::push_char(&mut t, ' ');
    }
    proof {
        assert(right_pad(t@, width as int) == t@);
    }
    t
}

/// Render `n` in base 16, left-padded with zeros to `width` characters.
pub fn u64_to_hex_pad(n: u64, width: usize) -> (s: String)
    ensures
        s@ =~= zero_pad(radix_chars(n as int, 16), width as int),
{
    let mut s = u64_to_radix(n, 16);
    while s.unicode_len() < width
        invariant
            zero_pad(s@, width as int) == zero_pad(radix_chars(n as int, 16), width as int),
        decreases width as int - s@.len(),
    {
        proof {
            reveal_strlit("0");
        }
        let mut padded = String::from_str("0");
        padded.append(s.as_str());
        proof {
            assert(padded@ =~= seq!['0'].add(s@));
        }
        s = padded;
    }
    proof {
        assert(zero_pad(s@, width as int) == s@);
    }
    s
}

} // verus!
