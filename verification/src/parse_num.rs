//! Decimal-number parsing over character sequences.
//!
//! The option and directive parsers all read unsigned decimal integers in the
//! same way Rust's standard `parse` does for unsigned types: an optional
//! leading `+`, then one or more ASCII digits, rejecting values that do not
//! fit the target range.

use vstd::prelude::*;

verus! {

pub open spec fn is_digit(c: char) -> bool {
    '0' <= c && c <= '9'
}

pub open spec fn digit_val(c: char) -> int {
    c as int - '0' as int
}

pub open spec fn all_digits(s: Seq<char>) -> bool {
    forall|i: int| 0 <= i < s.len() ==> is_digit(#[trigger] s[i])
}

/// Numeric value of a sequence of decimal digits, most significant first.
pub open spec fn digits_val(s: Seq<char>) -> int
    decreases s.len(),
{
    if s.len() == 0 {
        0
    } else {
        digits_val(s.drop_last()) * 10 + digit_val(s.last())
    }
}

/// What `str::parse` accepts for an unsigned integer type, ignoring range:
/// an optional `+` sign followed by at least one digit.
pub open spec fn spec_parse_uint(s: Seq<char>) -> Option<int> {
    let body = if s.len() > 0 && s[0] == '+' {
        s.skip(1)
    } else {
        s
    };
    if body.len() > 0 && all_digits(body) {
        Some(digits_val(body))
    } else {
        None
    }
}

pub proof fn lemma_digits_val_nonneg(s: Seq<char>)
    requires
        all_digits(s),
    ensures
        digits_val(s) >= 0,
    decreases s.len(),
{
    if s.len() > 0 {
        assert(all_digits(s.drop_last())) by {
            assert(forall|i: int|
                0 <= i < s.len() - 1 ==> #[trigger] s.drop_last()[i] == s[i]);
        }
        lemma_digits_val_nonneg(s.drop_last());
    }
}

/// Parses the character range `[from, to)` of `s` as an unsigned decimal
/// number with no sign, failing on a non-digit, an empty range, or a value
/// above `max`.
pub fn parse_digits_capped(s: &str, from: usize, to: usize, max: u64) -> (r: Option<u64>)
    requires
        from <= to <= s@.len(),
        max >= 9,
    ensures
        match r {
            Some(x) => {
                &&& to > from
                &&& all_digits(s@.subrange(from as int, to as int))
                &&& x as int == digits_val(s@.subrange(from as int, to as int))
                &&& x <= max
            },
            None => {
                ||| to == from
                ||| !all_digits(s@.subrange(from as int, to as int))
                ||| digits_val(s@.subrange(from as int, to as int)) > max
            },
        },
{
    if from == to {
        return None;
    }
    let mut i: usize = from;
    let mut val: u64 = 0;
    while i < to
        invariant
            from <= i <= to <= s@.len(),
            max >= 9,
            all_digits(s@.subrange(from as int, i as int)),
            val as int == digits_val(s@.subrange(from as int, i as int)),
            val <= max,
        decreases to - i,
    {
        let c = s.get_char(i);
        if !('0' <= c && c <= '9') {
            proof {
                assert(s@.subrange(from as int, to as int)[i - from] == s@[i as int]);
                assert(!all_digits(s@.subrange(from as int, to as int)));
            }
            return None;
        }
        let d: u64 = (c as u32 - '0' as u32) as u64;
        proof {
            assert(s@.subrange(from as int, i + 1).drop_last()
                =~= s@.subrange(from as int, i as int));
        }
        if val > (max - d) / 10 {
            proof {
                if all_digits(s@.subrange(from as int, to as int)) {
                    lemma_digits_over(s@, from as int, i as int, to as int, max as int);
                }
            }
            return None;
        }
        val = val * 10 + d;
        i = i + 1;
    }
    proof {
        assert(s@.subrange(from as int, i as int)
            =~= s@.subrange(from as int, to as int));
    }
    Some(val)
}

/// Once a digit prefix exceeds `max`, every extension of it does too.
proof fn lemma_digits_over(s: Seq<char>, from: int, i: int, to: int, max: int)
    requires
        0 <= from <= i < to <= s.len(),
        max >= 9,
        is_digit(s[i]),
        digits_val(s.subrange(from, i)) * 10 + digit_val(s[i]) > max,
        all_digits(s.subrange(from, to)),
    ensures
        digits_val(s.subrange(from, to)) > max,
    decreases to - i,
{
    assert(s.subrange(from, i + 1).drop_last() =~= s.subrange(from, i));
    assert(s.subrange(from, i + 1).last() == s[i]);
    assert(digits_val(s.subrange(from, i + 1)) > max);
    if i + 1 < to {
        let j = i + 1;
        assert(is_digit(s[j])) by {
            assert(s.subrange(from, to)[j - from] == s[j]);
        }
        assert(s.subrange(from, j + 1).drop_last() =~= s.subrange(from, j));
        assert(digit_val(s[j]) >= 0);
        lemma_grow_keeps_over(s, from, j, to, max);
    } else {
        assert(s.subrange(from, to) =~= s.subrange(from, i + 1));
    }
}

/// Helper: if the value of `s[from..j]` already exceeds `max`, so does the
/// value of any longer prefix `s[from..to]`.
proof fn lemma_grow_keeps_over(s: Seq<char>, from: int, j: int, to: int, max: int)
    requires
        0 <= from <= j <= to <= s.len(),
        max >= 0,
        digits_val(s.subrange(from, j)) > max,
        all_digits(s.subrange(from, to)),
    ensures
        digits_val(s.subrange(from, to)) > max,
    decreases to - j,
{
    if j < to {
        assert(is_digit(s[j])) by {
            assert(s.subrange(from, to)[j - from] == s[j]);
        }
        assert(s.subrange(from, j + 1).drop_last() =~= s.subrange(from, j));
        assert(s.subrange(from, j + 1).last() == s[j]);
        assert(digit_val(s[j]) >= 0);
        assert(digits_val(s.subrange(from, j + 1)) > max);
        lemma_grow_keeps_over(s, from, j + 1, to, max);
    } else {
        assert(s.subrange(from, to) =~= s.subrange(from, j));
    }
}

/// Index of the first occurrence of `c` in `s` within `[from, to)`.
pub open spec fn spec_find_in(s: Seq<char>, c: char, from: int, to: int) -> Option<int>
    decreases to - from,
{
    if from < 0 || from >= to {
        None
    } else if s[from] == c {
        Some(from)
    } else {
        spec_find_in(s, c, from + 1, to)
    }
}

/// Finds the first occurrence of `c` in the character range `[from, to)`.
pub fn find_char(s: &str, from: usize, to: usize, c: char) -> (r: Option<usize>)
    requires
        from <= to <= s@.len(),
    ensures
        match r {
            Some(i) => spec_find_in(s@, c, from as int, to as int) == Some(i as int),
            None => spec_find_in(s@, c, from as int, to as int) is None,
        },
{
    let mut i: usize = from;
    while i < to
        invariant
            from <= i <= to <= s@.len(),
            spec_find_in(s@, c, from as int, to as int)
                == spec_find_in(s@, c, i as int, to as int),
        decreases to - i,
    {
        if s.get_char(i) == c {
            return Some(i);
        }
        i = i + 1;
    }
    None
}

/// A found index lies in its range and is the first hit.
pub proof fn lemma_find_in_props(s: Seq<char>, c: char, from: int, to: int)
    requires
        0 <= from,
        to <= s.len(),
    ensures
        match spec_find_in(s, c, from, to) {
            Some(i) => from <= i < to && s[i] == c
                && forall|j: int| from <= j < i ==> s[j] != c,
            None => forall|j: int| from <= j < to ==> s[j] != c,
        },
    decreases to - from,
{
    if from < to {
        lemma_find_in_props(s, c, from + 1, to);
    }
}

/// Checks that the character range `[from, to)` is non-empty and all digits.
pub fn check_all_digits(s: &str, from: usize, to: usize) -> (r: bool)
    requires
        from <= to <= s@.len(),
    ensures
        r == (to > from && all_digits(s@.subrange(from as int, to as int))),
{
    if from == to {
        return false;
    }
    let mut i: usize = from;
    while i < to
        invariant
            from <= i <= to <= s@.len(),
            all_digits(s@.subrange(from as int, i as int)),
        decreases to - i,
    {
        let c = s.get_char(i);
        if !('0' <= c && c <= '9') {
            proof {
                assert(s@.subrange(from as int, to as int)[i - from] == s@[i as int]);
            }
            return false;
        }
        proof {
            assert(forall|j: int| 0 <= j < i + 1 - from ==> #[trigger] s@.subrange(
                from as int, i + 1)[j] == s@[from + j]);
        }
        i = i + 1;
    }
    proof {
        assert(s@.subrange(from as int, i as int) =~= s@.subrange(from as int, to as int));
    }
    true
}

/// Ten to the power `k`.
pub open spec fn spec_pow10(k: nat) -> int
    decreases k,
{
    if k == 0 {
        1
    } else {
        10 * spec_pow10((k - 1) as nat)
    }
}

pub proof fn lemma_pow10_unfold(k: nat)
    requires
        k > 0,
    ensures
        spec_pow10(k) == 10 * spec_pow10((k - 1) as nat),
{
}

pub proof fn lemma_pow10_pos(k: nat)
    ensures
        spec_pow10(k) >= 1,
    decreases k,
{
    if k > 0 {
        lemma_pow10_pos((k - 1) as nat);
    }
}

/// Computes ten to the power `k`.
pub fn pow10(k: u32) -> (r: u64)
    requires
        k <= 15,
    ensures
        r == spec_pow10(k as nat),
        r >= 1,
{
    let mut r: u64 = 1;
    let mut i: u32 = 0;
    while i < k
        invariant
            i <= k <= 15,
            r == spec_pow10(i as nat),
            1 <= r,
            r <= 1_000_000_000_000_000,
        decreases k - i,
    {
        proof {
            lemma_pow10_bound(i as nat);
        }
        r = r * 10;
        i = i + 1;
    }
    r
}

pub proof fn lemma_pow10_mono(k1: nat, k2: nat)
    requires
        k1 <= k2,
    ensures
        spec_pow10(k1) <= spec_pow10(k2),
    decreases k2,
{
    if k1 < k2 {
        lemma_pow10_mono(k1, (k2 - 1) as nat);
        lemma_pow10_pos((k2 - 1) as nat);
    }
}

pub proof fn lemma_pow10_bound(k: nat)
    requires
        k <= 14,
    ensures
        spec_pow10(k) <= 100_000_000_000_000,
{
    lemma_pow10_mono(k, 14);
    assert(spec_pow10(14) == 100_000_000_000_000) by {
        reveal_with_fuel(spec_pow10, 16);
    }
}

/// A digit string's value is below ten to the power of its length.
pub proof fn lemma_digits_val_upper(s: Seq<char>)
    requires
        all_digits(s),
    ensures
        digits_val(s) < spec_pow10(s.len() as nat),
    decreases s.len(),
{
    if s.len() == 0 {
    } else {
        assert(all_digits(s.drop_last())) by {
            assert(forall|i: int|
                0 <= i < s.len() - 1 ==> #[trigger] s.drop_last()[i] == s[i]);
        }
        lemma_digits_val_upper(s.drop_last());
        assert(is_digit(s.last())) by {
            assert(s[s.len() - 1] == s.last());
        }
        assert(digit_val(s.last()) <= 9);
        lemma_pow10_unfold(s.len() as nat);
    }
}

/// Parses a whole string as `str::parse` does for an unsigned type capped at
/// `max`: optional leading `+`, then digits.
pub fn parse_uint_capped(s: &str, max: u64) -> (r: Option<u64>)
    requires
        max >= 9,
    ensures
        match r {
            Some(x) => spec_parse_uint(s@) == Some(x as int) && x <= max,
            None => match spec_parse_uint(s@) {
                Some(v) => v > max,
                None => true,
            },
        },
{
    let n = s.unicode_len();
    let from: usize = if n > 0 && s.get_char(0) == '+' {
        1
    } else {
        0
    };
    proof {
        if from == 1 {
            assert(s@.skip(1) =~= s@.subrange(1, s@.len() as int));
        } else {
            assert(s@ =~= s@.subrange(0, s@.len() as int));
        }
    }
    parse_digits_capped(s, from, n, max)
}

} // verus!
