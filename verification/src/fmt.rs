//! The `x/FMT` mini-language: the format record, its overlay onto the
//! session's last format, and the parser for format strings.
use vstd::prelude::*;

use crate::error::ErrorKind;
use crate::numfmt::{digit_val, lemma_digits_have_val, lemma_radix_val_prefix_monotone, radix_val};

verus! {

/// Format for the examine command, i.e. the FMT of `x/FMT`.
///
/// A value with unset fields is also the patch that `update` overlays
/// onto the last format the session used.
#[derive(Debug, Clone, Copy, PartialEq, Eq)]
pub struct Fmt {
    pub reverse: bool,
    pub repeat: Option<u64>,
    pub format: Option<char>,
    pub size: Option<char>,
}

/// The result of overlaying `patch` onto `base`: `reverse` is replaced,
/// every other field only where the patch sets it.
pub open spec fn spec_overlay(base: Fmt, patch: Fmt) -> Fmt {
    Fmt {
        reverse: patch.reverse,
        repeat: if patch.repeat is Some {
            patch.repeat
        } else {
            base.repeat
        },
        format: if patch.format is Some {
            patch.format
        } else {
            base.format
        },
        size: if patch.size is Some {
            patch.size
        } else {
            base.size
        },
    }
}

impl Fmt {
    /// Overlay `other` onto this format.
    pub fn update(&mut self, other: Fmt)
        ensures
            *final(self) == spec_overlay(*old(self), other),
    {
        self.reverse = other.reverse;
        self.repeat = if other.repeat.is_some() {
            other.repeat
        } else {
            self.repeat
        };
        self.format = if other.format.is_some() {
            other.format
        } else {
            self.format
        };
        self.size = if other.size.is_some() {
            other.size
        } else {
            self.size
        };
    }
}

impl Default for Fmt {
    /// The all-unset format.
    fn default() -> (r: Fmt)
        ensures
            r == (Fmt { reverse: false, repeat: None, format: None, size: None }),
    {
        Fmt { reverse: false, repeat: None, format: None, size: None }
    }
}

/// Overlaying the same patch twice is the same as overlaying it once.
pub proof fn lemma_overlay_idempotent(base: Fmt, patch: Fmt)
    ensures
        spec_overlay(spec_overlay(base, patch), patch) == spec_overlay(base, patch),
{
}

/// A field the patch leaves unset keeps its value from before the overlay.
pub proof fn lemma_overlay_preserves_absent(base: Fmt, patch: Fmt)
    ensures
        patch.repeat is None ==> spec_overlay(base, patch).repeat == base.repeat,
        patch.format is None ==> spec_overlay(base, patch).format == base.format,
        patch.size is None ==> spec_overlay(base, patch).size == base.size,
{
}

/// The letters that pick a unit size: b=1, h=2, w=4, g=8 bytes.
pub open spec fn is_size_char(c: char) -> bool {
    c == 'b' || c == 'h' || c == 'w' || c == 'g'
}

/// The letters that pick an output format.
pub open spec fn is_format_char(c: char) -> bool {
    c == 'o' || c == 'x' || c == 'd' || c == 'u' || c == 't' || c == 'f' || c == 'a' || c == 'i'
        || c == 'c' || c == 's' || c == 'z'
}

/// The byte width a size letter stands for.
pub open spec fn spec_size_width(c: char) -> u64 {
    if c == 'b' {
        1
    } else if c == 'h' {
        2
    } else if c == 'w' {
        4
    } else {
        8
    }
}

/// The byte width a size letter stands for.
pub fn size_width(c: char) -> (w: u64)
    ensures
        w == spec_size_width(c),
{
    if c == 'b' {
        1
    } else if c == 'h' {
        2
    } else if c == 'w' {
        4
    } else {
        8
    }
}

/// A letter of an `x/FMT` string applied to a format record: a size letter
/// sets the size, any other accepted letter sets the format.
pub open spec fn spec_apply_letter(f: Fmt, c: char) -> Fmt {
    if is_size_char(c) {
        Fmt { size: Some(c), ..f }
    } else {
        Fmt { format: Some(c), ..f }
    }
}

/// The predicate picking leading dashes.
pub open spec fn dash_pred() -> spec_fn(char) -> bool {
    |c: char| c == '-'
}

/// The predicate picking decimal digits.
pub open spec fn digit_pred() -> spec_fn(char) -> bool {
    |c: char| 0 <= digit_val(c) < 10
}

/// How many leading characters of `s` satisfy `p`.
pub open spec fn prefix_len_while(s: Seq<char>, p: spec_fn(char) -> bool) -> int
    decreases s.len(),
{
    if s.len() > 0 && p(s[0]) {
        1 + prefix_len_while(s.drop_first(), p)
    } else {
        0
    }
}

/// The leading count is between zero and the length.
pub proof fn lemma_prefix_len_bounds(s: Seq<char>, p: spec_fn(char) -> bool)
    ensures
        0 <= prefix_len_while(s, p) <= s.len(),
    decreases s.len(),
{
    if s.len() > 0 && p(s[0]) {
        lemma_prefix_len_bounds(s.drop_first(), p);
    }
}

/// A position `k` with `p` holding before it and failing at it (or the end
/// reached) is exactly the leading count.
pub proof fn lemma_prefix_len_at(s: Seq<char>, p: spec_fn(char) -> bool, k: int)
    requires
        0 <= k <= s.len(),
        forall|j: int| 0 <= j < k ==> p(#[trigger] s[j]),
        k == s.len() || !p(s[k]),
    ensures
        prefix_len_while(s, p) == k,
    decreases s.len(),
{
    if s.len() > 0 && p(s[0]) {
        let t = s.drop_first();
        assert(forall|j: int| 0 <= j < k - 1 ==> #[trigger] t[j] == s[j + 1]);
        lemma_prefix_len_at(t, p, k - 1);
    }
}

/// What parsing an `x/FMT` string yields: leading dashes set `reverse`,
/// then decimal digits set `repeat`, then up to two letters set size and
/// format; the first unrecognized letter is an output-format error, the
/// second an output-size error; letters past the second are ignored.
pub open spec fn parse_fmt_spec(s: Seq<char>) -> Result<Fmt, ErrorKind> {
    let nd = prefix_len_while(s, dash_pred());
    let t = s.skip(nd);
    let dlen = prefix_len_while(t, digit_pred());
    let digits = t.take(dlen);
    let rest = t.skip(dlen);
    if dlen > 0 && radix_val(digits, 10)->Some_0 > u64::MAX {
        Err(ErrorKind::InvalidRepeat)
    } else {
        let f0 = Fmt {
            reverse: nd > 0,
            repeat: if dlen > 0 {
                Some(radix_val(digits, 10)->Some_0 as u64)
            } else {
                None
            },
            format: None,
            size: None,
        };
        if rest.len() == 0 {
            Ok(f0)
        } else if !(is_size_char(rest[0]) || is_format_char(rest[0])) {
            Err(ErrorKind::InvalidOutputFormat(rest[0]))
        } else {
            let f1 = spec_apply_letter(f0, rest[0]);
            if rest.len() == 1 {
                Ok(f1)
            } else if !(is_size_char(rest[1]) || is_format_char(rest[1])) {
                Err(ErrorKind::InvalidOutputSize(rest[1]))
            } else {
                Ok(spec_apply_letter(f1, rest[1]))
            }
        }
    }
}

/// The decimal digit a character stands for, if any.
fn char_digit10(c: char) -> (d: Option<u8>)
    ensures
        match d {
            Some(v) => digit_val(c) == v && 0 <= v < 10,
            None => !(0 <= digit_val(c) < 10),
        },
{
    match c {
        '0' => Some(0),
        '1' => Some(1),
        '2' => Some(2),
        '3' => Some(3),
        '4' => Some(4),
        '5' => Some(5),
        '6' => Some(6),
        '7' => Some(7),
        '8' => Some(8),
        '9' => Some(9),
        _ => None,
    }
}

/// Whether `c` picks a unit size.
fn size_char(c: char) -> (r: bool)
    ensures
        r == is_size_char(c),
{
    c == 'b' || c == 'h' || c == 'w' || c == 'g'
}

/// Whether `c` picks an output format.
fn format_char(c: char) -> (r: bool)
    ensures
        r == is_format_char(c),
{
    c == 'o' || c == 'x' || c == 'd' || c == 'u' || c == 't' || c == 'f' || c == 'a' || c == 'i'
        || c == 'c' || c == 's' || c == 'z'
}

/// Parse a FMT for commands like `x/FMT`, e.g. `x/32wx`.
pub fn parse_fmt(arg: &str) -> (r: Result<Fmt, ErrorKind>)
    ensures
        r == parse_fmt_spec(arg@),
{
    let len = arg.unicode_len();

    // Leading dashes set `reverse`.
    let mut i: usize = 0;
    while i < len && arg.get_char(i) == '-'
        invariant
            i <= len,
            len == arg@.len(),
            forall|j: int| 0 <= j < i ==> #[trigger] arg@[j] == '-',
        decreases len - i,
    {
        i += 1;
    }
    proof {
        lemma_prefix_len_at(arg@, dash_pred(), i as int);
    }
    let reverse = i > 0;
    let ghost t = arg@.skip(i as int);

    // A run of decimal digits sets `repeat`.
    let mut j: usize = i;
    while j < len && char_digit10(arg.get_char(j)).is_some()
        invariant
            i <= j <= len,
            len == arg@.len(),
            forall|k: int| i <= k < j ==> 0 <= digit_val(#[trigger] arg@[k]) < 10,
        decreases len - j,
    {
        j += 1;
    }
    proof {
        assert(forall|k: int| 0 <= k < t.len() ==> #[trigger] t[k] == arg@[i + k]);
        lemma_prefix_len_at(t, digit_pred(), j - i);
    }
    let ghost dlen = (j - i) as int;
    let ghost digits = t.take(dlen);
    let ghost rest = t.skip(dlen);
    proof {
        assert(forall|k: int| 0 <= k < dlen ==> #[trigger] digits[k] == arg@[i + k]);
        assert(forall|k: int| 0 <= k < rest.len() ==> #[trigger] rest[k] == arg@[j + k]);
    }

    let mut repeat: Option<u64> = None;
    if j > i {
        proof {
            assert(forall|k: int| 0 <= k < dlen ==> 0 <= digit_val(#[trigger] digits[k]) < 10);
            lemma_digits_have_val(digits, 10);
        }
        let mut value: u64 = 0;
        let mut k: usize = i;
        while k < j
            invariant
                i <= k <= j <= len,
                len == arg@.len(),
                dlen == j - i,
                prefix_len_while(arg@, dash_pred()) == i as int,
                prefix_len_while(arg@.skip(i as int), digit_pred()) == dlen,
                digits =~= arg@.skip(i as int).take(dlen),
                forall|m: int| 0 <= m < dlen ==> 0 <= digit_val(#[trigger] digits[m]) < 10,
                forall|m: int| 0 <= m < dlen ==> #[trigger] digits[m] == arg@[i + m],
                k > i ==> radix_val(digits.take(k - i), 10) == Some(value as int),
                k == i ==> value == 0,
            decreases j - k,
        {
            let c = arg.get_char(k);
            proof {
                assert(digits[k - i] == arg@[k as int]);
                assert(0 <= digit_val(digits[k - i]) < 10);
            }
            let d = match char_digit10(c) {
                Some(d) => d,
                None => {
                    // Unreachable: every character before `j` is a digit.
                    0
                },
            };
            proof {
                let p = digits.take(k - i + 1);
                assert(p.drop_last() =~= digits.take(k - i));
                assert(p.last() == digits[k - i]);
                if k > i {
                    assert(radix_val(p, 10) == Some(value as int * 10 + digit_val(c)));
                } else {
                    assert(radix_val(p, 10) == Some(digit_val(c)));
                }
            }
            let next: Option<u64> = match value.checked_mul(10) {
                Some(v10) => v10.checked_add(d as u64),
                None => None,
            };
            match next {
                Some(v) => {
                    value = v;
                },
                None => {
                    // The full run of digits can only be larger still.
                    proof {
                        let p = digits.take(k - i + 1);
                        assert(value as int * 10 + digit_val(c) > u64::MAX);
                        assert(radix_val(p, 10)->Some_0 > u64::MAX);
                        lemma_radix_val_prefix_monotone(digits, 10, k - i + 1);
                    }
                    return Err(ErrorKind::InvalidRepeat);
                },
            }
            k += 1;
        }
        proof {
            assert(digits.take(dlen) =~= digits);
        }
        repeat = Some(value);
    }

    let f0 = Fmt { reverse, repeat, format: None, size: None };

    // Up to two letters classify size and format.
    if j >= len {
        proof {
            assert(rest.len() == 0);
        }
        return Ok(f0);
    }
    let c1 = arg.get_char(j);
    proof {
        assert(rest[0] == arg@[j as int]);
    }
    if !(size_char(c1) || format_char(c1)) {
        return Err(ErrorKind::InvalidOutputFormat(c1));
    }
    let f1 = if size_char(c1) {
        Fmt { size: Some(c1), ..f0 }
    } else {
        Fmt { format: Some(c1), ..f0 }
    };
    if j + 1 >= len {
        proof {
            assert(rest.len() == 1);
        }
        return Ok(f1);
    }
    let c2 = arg.get_char(j + 1);
    proof {
        assert(rest[1] == arg@[j + 1]);
    }
    if !(size_char(c2) || format_char(c2)) {
        return Err(ErrorKind::InvalidOutputSize(c2));
    }
    let f2 = if size_char(c2) {
        Fmt { size: Some(c2), ..f1 }
    } else {
        Fmt { format: Some(c2), ..f1 }
    };
    Ok(f2)
}

} // verus!
