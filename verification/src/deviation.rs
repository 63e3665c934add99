//! The textual deviation directive mini-language.
//!
//! A directive such as `"16vs10:>+1="` reads: for hand 16 against a dealer
//! 10, once the rounded true count is at least +1, override the table action
//! with `=` (stand). The hand names a row of one of the three strategy
//! tables: a hard total (`16`), a soft total (`A7`, `AA`), or a pair
//! (`8/8`, `T/T`, `A/A`).

use vstd::prelude::*;
use crate::parse_num::{
    all_digits, digits_val, digit_val, is_digit, spec_find_in, spec_pow10,
    find_char, check_all_digits, parse_digits_capped, lemma_find_in_props,
    lemma_pow10_pos, pow10,
};

verus! {

/// A deviation threshold kept as an exact decimal: the represented value is
/// `mag / 10^frac_len`, negated when `neg` is set. The fraction never ends
/// in a zero digit, so each value has one representation; a negative sign
/// on a zero magnitude is remembered, as `"-0"` parses and prints that way.
#[derive(Debug, PartialEq, Eq, Structural, Copy, Clone)]
pub struct DevTc {
    /// Printed sign: true for `-`.
    pub neg: bool,
    /// Magnitude scaled by `10^frac_len`.
    pub mag: u64,
    /// Number of fraction digits.
    pub frac_len: u32,
}

impl DevTc {
    pub open spec fn wf(self) -> bool {
        &&& self.frac_len <= 9
        &&& self.mag <= 2_000_000_000_000_000
        &&& (self.frac_len == 0 || self.mag % 10 != 0)
    }

    /// A whole-number threshold.
    pub fn whole(n: i64) -> (r: DevTc)
        requires
            -1_000_000 <= n <= 1_000_000,
        ensures
            r == (DevTc { neg: n < 0, mag: (if n < 0 { -n as int } else { n as int }) as u64, frac_len: 0 }),
            r.wf(),
    {
        DevTc { neg: n < 0, mag: (if n < 0 { -n } else { n }) as u64, frac_len: 0 }
    }

    /// The signed value, meaningful for whole-number thresholds.
    pub open spec fn spec_whole_value(self) -> int {
        if self.neg {
            -(self.mag as int)
        } else {
            self.mag as int
        }
    }
}

/// A parsed override record: replace the base table action with the given
/// action code once the rounded true count reaches the threshold from above
/// (`AboveEqual`) or from below (`UnderEqual`).
#[derive(Debug, PartialEq, Eq, Structural, Copy, Clone)]
pub enum DevOverride {
    AboveEqual(DevTc, char),
    UnderEqual(DevTc, char),
}

#[derive(Debug, PartialEq, Eq, Structural, Copy, Clone)]
pub enum DeviationTable {
    HardTable,
    SoftTable,
    PairTable,
}

/// A fully parsed deviation directive: the table and row it overrides, the
/// dealer up-card column, and the override record itself.
#[derive(Debug, PartialEq, Eq, Structural, Copy, Clone)]
pub struct Deviation {
    pub table: DeviationTable,
    pub row: u8,
    pub dealer: u8,
    pub action: DevOverride,
}

/// The action codes a directive may carry.
pub open spec fn spec_is_action(c: char) -> bool {
    ||| c == '+' ||| c == '=' ||| c == 'D' ||| c == 'd' ||| c == 'V' ||| c == '*'
    ||| c == '?' ||| c == '@' ||| c == 'h' ||| c == '&' ||| c == 'S' ||| c == 's'
    ||| c == 'U' ||| c == 'u' ||| c == 'E' ||| c == 'e'
}

pub fn is_action_char(c: char) -> (r: bool)
    ensures
        r == spec_is_action(c),
{
    c == '+' || c == '=' || c == 'D' || c == 'd' || c == 'V' || c == '*' || c == '?'
        || c == '@' || c == 'h' || c == '&' || c == 'S' || c == 's' || c == 'U' || c == 'u'
        || c == 'E' || c == 'e'
}

// ---------------------------------------------------------------------------
// The decimal-threshold grammar: [+-]? digits ( '.' digits )?
// ---------------------------------------------------------------------------

/// Where the digits begin: after an optional sign.
pub open spec fn devnum_body_start(s: Seq<char>) -> int {
    if s.len() > 0 && (s[0] == '+' || s[0] == '-') {
        1int
    } else {
        0int
    }
}

/// Whether `s` matches the threshold grammar.
pub open spec fn devnum_shape(s: Seq<char>) -> bool {
    let b = devnum_body_start(s);
    match spec_find_in(s, '.', b, s.len() as int) {
        None => s.len() > b && all_digits(s.subrange(b, s.len() as int)),
        Some(d) => {
            &&& d > b
            &&& all_digits(s.subrange(b, d))
            &&& d + 1 < s.len()
            &&& all_digits(s.subrange(d + 1, s.len() as int))
        },
    }
}

pub open spec fn devnum_neg(s: Seq<char>) -> bool {
    s.len() > 0 && s[0] == '-'
}

pub open spec fn devnum_int_val(s: Seq<char>) -> int {
    let b = devnum_body_start(s);
    match spec_find_in(s, '.', b, s.len() as int) {
        None => digits_val(s.subrange(b, s.len() as int)),
        Some(d) => digits_val(s.subrange(b, d)),
    }
}

pub open spec fn devnum_frac_len(s: Seq<char>) -> int {
    match spec_find_in(s, '.', devnum_body_start(s), s.len() as int) {
        None => 0,
        Some(d) => s.len() - d - 1,
    }
}

pub open spec fn devnum_frac_val(s: Seq<char>) -> int {
    match spec_find_in(s, '.', devnum_body_start(s), s.len() as int) {
        None => 0,
        Some(d) => digits_val(s.subrange(d + 1, s.len() as int)),
    }
}

/// Whether the threshold is small enough to keep exactly: a whole part up to
/// a million and at most nine fraction digits.
pub open spec fn devnum_small(s: Seq<char>) -> bool {
    devnum_int_val(s) <= 1_000_000 && devnum_frac_len(s) <= 9
}

/// Strips trailing zero fraction digits, dividing the magnitude down with
/// each one, so that every threshold has one canonical representation.
pub open spec fn spec_canon(mag: nat, k: nat) -> (nat, nat)
    decreases k,
{
    if k > 0 && mag % 10 == 0 {
        spec_canon(mag / 10, (k - 1) as nat)
    } else {
        (mag, k)
    }
}

pub proof fn lemma_canon_props(mag: nat, k: nat)
    ensures
        spec_canon(mag, k).0 <= mag,
        spec_canon(mag, k).1 <= k,
        spec_canon(mag, k).1 == 0 || spec_canon(mag, k).0 % 10 != 0,
    decreases k,
{
    if k > 0 && mag % 10 == 0 {
        lemma_canon_props(mag / 10, (k - 1) as nat);
    }
}

/// The parsed threshold of a string matching the grammar.
pub open spec fn spec_devnum(s: Seq<char>) -> DevTc {
    let raw = devnum_int_val(s) * spec_pow10(devnum_frac_len(s) as nat) + devnum_frac_val(s);
    let canon = spec_canon(raw as nat, devnum_frac_len(s) as nat);
    DevTc { neg: devnum_neg(s), mag: canon.0 as u64, frac_len: canon.1 as u32 }
}

// ---------------------------------------------------------------------------
// Parsing an override record
// ---------------------------------------------------------------------------

/// What parsing an override record yields: the direction character, the
/// threshold, and a single trailing action character, or the error naming
/// what was wrong.
pub open spec fn spec_parse_override(s: Seq<char>) -> Result<DevOverride, Seq<char>> {
    if s.len() < 3 || !(s[0] == '>' || s[0] == '<') {
        Err("Invalid syntax"@)
    } else {
        let mid = s.subrange(1, s.len() - 1);
        let a = s[s.len() - 1];
        if !devnum_shape(mid) {
            Err("Invalid syntax"@)
        } else if !devnum_small(mid) {
            Err("Invalid true count"@)
        } else if !spec_is_action(a) {
            Err("Invalid action"@)
        } else if s[0] == '>' {
            Ok(DevOverride::AboveEqual(spec_devnum(mid), a))
        } else {
            Ok(DevOverride::UnderEqual(spec_devnum(mid), a))
        }
    }
}

impl DevOverride {
    pub open spec fn spec_tc(self) -> DevTc {
        match self {
            DevOverride::AboveEqual(tc, _) => tc,
            DevOverride::UnderEqual(tc, _) => tc,
        }
    }

    pub open spec fn spec_action(self) -> char {
        match self {
            DevOverride::AboveEqual(_, a) => a,
            DevOverride::UnderEqual(_, a) => a,
        }
    }

    pub open spec fn wf(self) -> bool {
        self.spec_tc().wf() && spec_is_action(self.spec_action())
    }

    /// Parses an override record such as `">+1="` or `"<0.5D"`.
    pub fn from_str(s: &str) -> (r: Result<DevOverride, String>)
        ensures
            match r {
                Ok(ov) => spec_parse_override(s@) == Ok::<DevOverride, Seq<char>>(ov) && ov.wf(),
                Err(e) => spec_parse_override(s@) == Err::<DevOverride, Seq<char>>(e@),
            },
    {
        let n = s.unicode_len();
        if n < 3 || !(s.get_char(0) == '>' || s.get_char(0) == '<') {
            proof {
                reveal_strlit("Invalid syntax");
            }
            return Err(String::from_str("Invalid syntax"));
        }
        let a = s.get_char(n - 1);
        let ghost mid = s@.subrange(1, s@.len() - 1);

        match parse_devnum(s, 1, n - 1) {
            DevnumOutcome::BadShape => {
                proof {
                    reveal_strlit("Invalid syntax");
                }
                Err(String::from_str("Invalid syntax"))
            },
            DevnumOutcome::TooBig => {
                proof {
                    reveal_strlit("Invalid true count");
                }
                Err(String::from_str("Invalid true count"))
            },
            DevnumOutcome::Value(tc) => {
                if !is_action_char(a) {
                    proof {
                        reveal_strlit("Invalid action");
                    }
                    Err(String::from_str("Invalid action"))
                } else if s.get_char(0) == '>' {
                    Ok(DevOverride::AboveEqual(tc, a))
                } else {
                    Ok(DevOverride::UnderEqual(tc, a))
                }
            },
        }
    }
}

// ---------------------------------------------------------------------------
// Serializing an override record
// ---------------------------------------------------------------------------

/// The character for one decimal digit.
pub open spec fn spec_digit_char(d: int) -> char {
    if d == 0 { '0' } else if d == 1 { '1' } else if d == 2 { '2' } else if d == 3 { '3' }
    else if d == 4 { '4' } else if d == 5 { '5' } else if d == 6 { '6' } else if d == 7 { '7' }
    else if d == 8 { '8' } else { '9' }
}

/// The decimal digits of `n`, most significant first, no leading zeros
/// except for zero itself.
pub open spec fn spec_digits(n: nat) -> Seq<char>
    decreases n,
{
    if n < 10 {
        seq![spec_digit_char(n as int)]
    } else {
        spec_digits(n / 10) + seq![spec_digit_char((n % 10) as int)]
    }
}

/// Exactly `k` decimal digits of `n`, leading zeros kept.
pub open spec fn spec_padded(n: nat, k: nat) -> Seq<char>
    decreases k,
{
    if k == 0 {
        Seq::empty()
    } else {
        spec_padded(n / 10, (k - 1) as nat) + seq![spec_digit_char((n % 10) as int)]
    }
}

/// The textual form of a threshold, always signed: `+3`, `-2`, `+0.5`.
pub open spec fn spec_devtc_str(tc: DevTc) -> Seq<char> {
    let sign = seq![if tc.neg { '-' } else { '+' }];
    if tc.frac_len == 0 {
        sign + spec_digits(tc.mag as nat)
    } else {
        let scale = spec_pow10(tc.frac_len as nat);
        sign + spec_digits((tc.mag as int / scale) as nat) + seq!['.']
            + spec_padded((tc.mag as int % scale) as nat, tc.frac_len as nat)
    }
}

/// The full textual form of an override record: direction, signed threshold,
/// action character.
pub open spec fn spec_override_str(ov: DevOverride) -> Seq<char> {
    let dir = match ov {
        DevOverride::AboveEqual(_, _) => '>',
        DevOverride::UnderEqual(_, _) => '<',
    };
    seq![dir] + spec_devtc_str(ov.spec_tc()) + seq![ov.spec_action()]
}

/// Appends one decimal digit character.
fn append_digit(s: &mut String, d: u64)
    requires
        d <= 9,
    ensures
        final(s)@ == old(s)@ + seq![spec_digit_char(d as int)],
{
    proof {
        reveal_strlit("0");
        reveal_strlit("1");
        reveal_strlit("2");
        reveal_strlit("3");
        reveal_strlit("4");
        reveal_strlit("5");
        reveal_strlit("6");
        reveal_strlit("7");
        reveal_strlit("8");
        reveal_strlit("9");
    }
    match d {
        0 => s.append("0"),
        1 => s.append("1"),
        2 => s.append("2"),
        3 => s.append("3"),
        4 => s.append("4"),
        5 => s.append("5"),
        6 => s.append("6"),
        7 => s.append("7"),
        8 => s.append("8"),
        _ => s.append("9"),
    }
    proof {
        assert(s@ =~= old(s)@ + seq![spec_digit_char(d as int)]);
    }
}

/// Appends the decimal digits of `n`.
fn append_digits(s: &mut String, n: u64)
    ensures
        final(s)@ == old(s)@ + spec_digits(n as nat),
    decreases n,
{
    if n < 10 {
        append_digit(s, n);
    } else {
        append_digits(s, n / 10);
        append_digit(s, n % 10);
        proof {
            assert(old(s)@ + spec_digits((n / 10) as nat)
                + seq![spec_digit_char((n % 10) as int)]
                =~= old(s)@ + spec_digits(n as nat));
        }
    }
}

/// Appends exactly `k` decimal digits of `n`, leading zeros kept.
fn append_padded(s: &mut String, n: u64, k: u32)
    ensures
        final(s)@ == old(s)@ + spec_padded(n as nat, k as nat),
    decreases k,
{
    if k == 0 {
        proof {
            assert(old(s)@ + spec_padded(n as nat, 0) =~= old(s)@);
        }
    } else {
        append_padded(s, n / 10, k - 1);
        append_digit(s, n % 10);
        proof {
            assert(old(s)@ + spec_padded((n / 10) as nat, (k - 1) as nat)
                + seq![spec_digit_char((n % 10) as int)]
                =~= old(s)@ + spec_padded(n as nat, k as nat));
        }
    }
}

impl DevOverride {
    /// Serializes the override record back to its textual form, such as
    /// `">+1="`: the direction, the signed threshold, the action character.
    pub fn to_string(&self) -> (r: String)
        requires
            self.wf(),
        ensures
            r@ == spec_override_str(*self),
    {
        let mut out = String::new();
        proof {
            reveal_strlit(">");
            reveal_strlit("<");
            reveal_strlit("+");
            reveal_strlit("-");
            reveal_strlit(".");
        }
        let (tc, action): (DevTc, char) = match self {
            DevOverride::AboveEqual(tc, a) => {
                out.append(">");
                (*tc, *a)
            },
            DevOverride::UnderEqual(tc, a) => {
                out.append("<");
                (*tc, *a)
            },
        };
        if tc.neg {
            out.append("-");
        } else {
            out.append("+");
        }
        if tc.frac_len == 0 {
            append_digits(&mut out, tc.mag);
        } else {
            let scale = pow10(tc.frac_len);
            append_digits(&mut out, tc.mag / scale);
            out.append(".");
            append_padded(&mut out, tc.mag % scale, tc.frac_len);
        }
        append_action(&mut out, action);
        proof {
            assert(out@ =~= spec_override_str(*self));
        }
        out
    }
}

/// Appends one action character; an unknown one appends nothing, but every
/// well-formed record carries a known one.
fn append_action(s: &mut String, a: char)
    requires
        spec_is_action(a),
    ensures
        final(s)@ == old(s)@ + seq![a],
{
    proof {
        reveal_strlit("+");
        reveal_strlit("=");
        reveal_strlit("D");
        reveal_strlit("d");
        reveal_strlit("V");
        reveal_strlit("*");
        reveal_strlit("?");
        reveal_strlit("@");
        reveal_strlit("h");
        reveal_strlit("&");
        reveal_strlit("S");
        reveal_strlit("s");
        reveal_strlit("U");
        reveal_strlit("u");
        reveal_strlit("E");
        reveal_strlit("e");
    }
    if a == '+' { s.append("+") }
    else if a == '=' { s.append("=") }
    else if a == 'D' { s.append("D") }
    else if a == 'd' { s.append("d") }
    else if a == 'V' { s.append("V") }
    else if a == '*' { s.append("*") }
    else if a == '?' { s.append("?") }
    else if a == '@' { s.append("@") }
    else if a == 'h' { s.append("h") }
    else if a == '&' { s.append("&") }
    else if a == 'S' { s.append("S") }
    else if a == 's' { s.append("s") }
    else if a == 'U' { s.append("U") }
    else if a == 'u' { s.append("u") }
    else if a == 'E' { s.append("E") }
    else { s.append("e") }
    proof {
        assert(s@ =~= old(s)@ + seq![a]);
    }
}

/// Outcome of reading a threshold out of a character range.
enum DevnumOutcome {
    BadShape,
    TooBig,
    Value(DevTc),
}

/// Parses the character range `[from, to)` of `s` as a decimal threshold.
fn parse_devnum(s: &str, from: usize, to: usize) -> (r: DevnumOutcome)
    requires
        from <= to <= s@.len(),
    ensures
        ({
            let part = s@.subrange(from as int, to as int);
            match r {
                DevnumOutcome::BadShape => !devnum_shape(part),
                DevnumOutcome::TooBig => devnum_shape(part) && !devnum_small(part),
                DevnumOutcome::Value(tc) => devnum_shape(part) && devnum_small(part)
                    && tc == spec_devnum(part) && tc.wf(),
            }
        }),
{
    let ghost part = s@.subrange(from as int, to as int);
    let b: usize = if from < to && (s.get_char(from) == '+' || s.get_char(from) == '-') {
        from + 1
    } else {
        from
    };
    proof {
        assert(devnum_body_start(part) == b - from);
        if from < to {
            assert(part[0] == s@[from as int]);
        }
    }
    let neg = from < to && s.get_char(from) == '-';
    proof {
        assert(neg == devnum_neg(part));
        lemma_shift_find(s@, from as int, to as int, b as int, '.');
    }
    let dot = find_char(s, b, to, '.');
    match dot {
        None => {
            if !check_all_digits(s, b, to) {
                proof {
                    assert(part.subrange(b - from, part.len() as int)
                        =~= s@.subrange(b as int, to as int));
                }
                return DevnumOutcome::BadShape;
            }
            proof {
                assert(part.subrange(b - from, part.len() as int)
                    =~= s@.subrange(b as int, to as int));
            }
            match parse_digits_capped(s, b, to, 1_000_000) {
                None => DevnumOutcome::TooBig,
                Some(v) => {
                    proof {
                        assert(spec_canon(v as nat, 0) == (v as nat, 0nat));
                        assert(spec_pow10(0) == 1);
                    }
                    DevnumOutcome::Value(DevTc { neg, mag: v, frac_len: 0 })
                },
            }
        },
        Some(d) => {
            proof {
                lemma_find_in_props(s@, '.', b as int, to as int);
                assert(part.subrange(b - from, d - from) =~= s@.subrange(b as int, d as int));
                assert(part.subrange(d - from + 1, part.len() as int)
                    =~= s@.subrange(d + 1, to as int));
            }
            if !check_all_digits(s, b, d) || !check_all_digits(s, d + 1, to) {
                return DevnumOutcome::BadShape;
            }
            let frac_len: usize = to - d - 1;
            if frac_len > 9 {
                return DevnumOutcome::TooBig;
            }
            let int_val = match parse_digits_capped(s, b, d, 1_000_000) {
                None => {
                    return DevnumOutcome::TooBig;
                },
                Some(v) => v,
            };
            let frac_val = match parse_digits_capped(s, d + 1, to, 10_000_000_000) {
                None => {
                    proof {
                        crate::parse_num::lemma_digits_val_upper(s@.subrange(d + 1, to as int));
                        crate::parse_num::lemma_pow10_mono((to - d - 1) as nat, 9);
                        assert(spec_pow10(9) == 1_000_000_000) by {
                            reveal_with_fuel(spec_pow10, 10);
                        }
                    }
                    assert(false);
                    return DevnumOutcome::TooBig;
                },
                Some(v) => v,
            };
            proof {
                crate::parse_num::lemma_digits_val_upper(s@.subrange(d + 1, to as int));
                crate::parse_num::lemma_pow10_mono(frac_len as nat, 9);
                assert(spec_pow10(9) == 1_000_000_000) by {
                    reveal_with_fuel(spec_pow10, 10);
                }
                crate::parse_num::lemma_digits_val_nonneg(s@.subrange(b as int, d as int));
                crate::parse_num::lemma_digits_val_nonneg(s@.subrange(d + 1, to as int));
                lemma_pow10_pos(frac_len as nat);
                assert(int_val * spec_pow10(frac_len as nat)
                    <= 1_000_000 * 1_000_000_000) by (nonlinear_arith)
                    requires
                        0 <= int_val <= 1_000_000,
                        1 <= spec_pow10(frac_len as nat) <= 1_000_000_000,
                ;
                assert(int_val * spec_pow10(frac_len as nat) >= 0) by (nonlinear_arith)
                    requires
                        0 <= int_val,
                        1 <= spec_pow10(frac_len as nat),
                ;
            }
            let scale = pow10(frac_len as u32);
            let raw: u64 = int_val * scale + frac_val;
            let (mag, k) = canonicalize(raw, frac_len as u32);
            proof {
                lemma_canon_props(raw as nat, frac_len as nat);
            }
            DevnumOutcome::Value(DevTc { neg, mag, frac_len: k })
        },
    }
}

// ---------------------------------------------------------------------------
// Parsing a full directive
// ---------------------------------------------------------------------------

/// Index of the first `"vs"` in `s` at or after `i`.
pub open spec fn spec_find_vs(s: Seq<char>, i: int) -> Option<int>
    decreases s.len() - i,
{
    if i < 0 || i + 2 > s.len() {
        None
    } else if s[i] == 'v' && s[i + 1] == 's' {
        Some(i)
    } else {
        spec_find_vs(s, i + 1)
    }
}

/// What a pair hand may be written with: a digit, `A`, or `T`.
pub open spec fn spec_pair_char(c: char) -> bool {
    is_digit(c) || c == 'A' || c == 'T'
}

/// The three shapes a hand may take: a hard total in digits, a pair such as
/// `8/8`, or an ace-led soft total such as `A7` or `AA`.
pub open spec fn spec_hand_shape(h: Seq<char>) -> bool {
    ||| (h.len() > 0 && all_digits(h))
    ||| (h.len() == 3 && spec_pair_char(h[0]) && h[1] == '/' && spec_pair_char(h[2]))
    ||| (h.len() >= 2 && h[0] == 'A' && ((h.len() == 2 && h[1] == 'A') || all_digits(
        h.subrange(1, h.len() as int),
    )))
}

/// The dealer column is a card number or `A`.
pub open spec fn spec_dealer_shape(p: Seq<char>) -> bool {
    (p.len() == 1 && p[0] == 'A') || (p.len() > 0 && all_digits(p))
}

/// The table and row a well-shaped hand names, or the error for a value out
/// of range. Hard totals run 20 down to 4 as rows 0 to 16; soft totals and
/// pairs run 10 (or `T`) down to ace as rows 0 to 9.
pub open spec fn spec_hand_row(h: Seq<char>) -> Result<(DeviationTable, u8), Seq<char>> {
    if spec_find_in(h, '/', 0, h.len() as int) is Some {
        if h[0] == 'A' {
            Ok((DeviationTable::PairTable, 9u8))
        } else if h[0] == 'T' {
            Ok((DeviationTable::PairTable, 0u8))
        } else if digit_val(h[0]) < 1 {
            Err("Invalid pair"@)
        } else {
            Ok((DeviationTable::PairTable, (10 - digit_val(h[0])) as u8))
        }
    } else if h.len() >= 2 && h[0] == 'A' {
        if h.len() == 2 && h[1] == 'A' {
            Ok((DeviationTable::SoftTable, 9u8))
        } else {
            let v = digits_val(h.subrange(1, h.len() as int));
            if v > 255 {
                Err("Invalid syntax"@)
            } else if v < 1 || v > 10 {
                Err("Invalid soft total"@)
            } else {
                Ok((DeviationTable::SoftTable, (10 - v) as u8))
            }
        }
    } else {
        let v = digits_val(h);
        if v > 255 {
            Err("Invalid syntax"@)
        } else if v > 20 || v < 4 {
            Err("Invalid hard total"@)
        } else {
            Ok((DeviationTable::HardTable, (20 - v) as u8))
        }
    }
}

/// The dealer column a well-shaped dealer part names: 1 for the ace.
pub open spec fn spec_dealer_val(p: Seq<char>) -> Result<u8, Seq<char>> {
    if p.len() == 1 && p[0] == 'A' {
        Ok(1u8)
    } else {
        let v = digits_val(p);
        if v > 255 {
            Err("Invalid dealer card"@)
        } else if v == 0 || v > 10 {
            Err("Invalid dealer card"@)
        } else {
            Ok(v as u8)
        }
    }
}

/// What parsing a whole directive yields: the text splits at the first
/// `"vs"` and the first following `":"`; the three parts must be a hand, a
/// dealer card and a non-empty override record.
pub open spec fn spec_parse_deviation(s: Seq<char>) -> Result<Deviation, Seq<char>> {
    match spec_find_vs(s, 0) {
        None => Err("Invalid syntax"@),
        Some(i) => match spec_find_in(s, ':', i + 2, s.len() as int) {
            None => Err("Invalid syntax"@),
            Some(j) => {
                let hand = s.subrange(0, i);
                let dealer = s.subrange(i + 2, j);
                let act = s.subrange(j + 1, s.len() as int);
                if !(spec_hand_shape(hand) && spec_dealer_shape(dealer) && act.len() > 0) {
                    Err("Invalid syntax"@)
                } else {
                    match spec_hand_row(hand) {
                        Err(e) => Err(e),
                        Ok(tr) => match spec_dealer_val(dealer) {
                            Err(e) => Err(e),
                            Ok(dv) => match spec_parse_override(act) {
                                Err(e) => Err(e),
                                Ok(ov) => Ok(
                                    Deviation { table: tr.0, row: tr.1, dealer: dv, action: ov },
                                ),
                            },
                        },
                    }
                }
            },
        },
    }
}

/// Finds the first `"vs"` in `s`.
fn find_vs(s: &str) -> (r: Option<usize>)
    ensures
        match r {
            Some(i) => spec_find_vs(s@, 0) == Some(i as int) && i + 2 <= s@.len(),
            None => spec_find_vs(s@, 0) is None,
        },
{
    let n = s.unicode_len();
    if n < 2 {
        return None;
    }
    let mut i: usize = 0;
    while i < n - 1
        invariant
            2 <= n == s@.len(),
            i <= n,
            spec_find_vs(s@, 0) == spec_find_vs(s@, i as int),
        decreases n - i,
    {
        if s.get_char(i) == 'v' && s.get_char(i + 1) == 's' {
            return Some(i);
        }
        i = i + 1;
    }
    None
}

pub fn is_pair_char(c: char) -> (r: bool)
    ensures
        r == spec_pair_char(c),
{
    ('0' <= c && c <= '9') || c == 'A' || c == 'T'
}

impl Deviation {
    /// Parses a full deviation directive such as `"16vs10:>+1="`.
    pub fn from_str(s: &str) -> (r: Result<Deviation, String>)
        ensures
            match r {
                Ok(dev) => {
                    &&& spec_parse_deviation(s@) == Ok::<Deviation, Seq<char>>(dev)
                    &&& dev.action.wf()
                    &&& 1 <= dev.dealer <= 10
                    &&& (dev.table == DeviationTable::HardTable ==> dev.row <= 16)
                    &&& (dev.table != DeviationTable::HardTable ==> dev.row <= 9)
                },
                Err(e) => spec_parse_deviation(s@) == Err::<Deviation, Seq<char>>(e@),
            },
    {
        proof {
            reveal_strlit("Invalid syntax");
            reveal_strlit("Invalid pair");
            reveal_strlit("Invalid soft total");
            reveal_strlit("Invalid hard total");
            reveal_strlit("Invalid dealer card");
        }
        let n = s.unicode_len();
        let i = match find_vs(s) {
            None => {
                return Err(String::from_str("Invalid syntax"));
            },
            Some(i) => i,
        };
        let j = match find_char(s, i + 2, n, ':') {
            None => {
                return Err(String::from_str("Invalid syntax"));
            },
            Some(j) => j,
        };
        proof {
            lemma_find_in_props(s@, ':', i + 2, n as int);
        }
        let ghost hand = s@.subrange(0, i as int);
        let ghost dealer = s@.subrange(i + 2, j as int);
        let ghost act = s@.subrange(j + 1, s@.len() as int);
        proof {
            assert(forall|k: int| 0 <= k < i ==> hand[k] == s@[k]);
            assert(forall|k: int| 0 <= k < j - i - 2 ==> dealer[k] == s@[i + 2 + k]);
        }

        // Shape of the three parts; any failure is a syntax error.
        let pairish = find_char(s, 0, i, '/');
        proof {
            lemma_shift_find(s@, 0, i as int, 0, '/');
        }
        let hand_ok: bool = match pairish {
            Some(_) => i == 3 && s.get_char(1) == '/' && is_pair_char(s.get_char(0))
                && is_pair_char(s.get_char(2)),
            None => {
                if i >= 2 && s.get_char(0) == 'A' {
                    (i == 2 && s.get_char(1) == 'A') || {
                        let d = check_all_digits(s, 1, i);
                        proof {
                            assert(hand.subrange(1, hand.len() as int)
                                =~= s@.subrange(1, i as int));
                        }
                        d
                    }
                } else {
                    let d = check_all_digits(s, 0, i);
                    proof {
                        assert(hand =~= s@.subrange(0, i as int));
                    }
                    d
                }
            },
        };
        proof {
            if pairish is Some {
                assert(hand_ok == spec_hand_shape(hand)) by {
                    if hand_ok {
                    } else {
                        assert(!(hand.len() > 0 && all_digits(hand))) by {
                            lemma_find_in_props(hand, '/', 0, hand.len() as int);
                            let p = spec_find_in(hand, '/', 0, hand.len() as int)->Some_0;
                            assert(hand[p] == '/');
                            assert(!is_digit('/'));
                        }
                        assert(!(hand.len() >= 2 && hand[0] == 'A' && ((hand.len() == 2
                            && hand[1] == 'A') || all_digits(
                            hand.subrange(1, hand.len() as int),
                        )))) by {
                            lemma_find_in_props(hand, '/', 0, hand.len() as int);
                            let p = spec_find_in(hand, '/', 0, hand.len() as int)->Some_0;
                            if hand.len() >= 2 && hand[0] == 'A' && p >= 1 {
                                assert(hand.subrange(1, hand.len() as int)[p - 1] == '/');
                            }
                        }
                    }
                }
            } else {
                lemma_find_in_props(hand, '/', 0, hand.len() as int);
                if hand.len() == 3 && hand[1] == '/' {
                    assert(false);
                }
            }
        }
        let dealer_ok: bool = (j == i + 3 && s.get_char(i + 2) == 'A') || {
            let d = check_all_digits(s, i + 2, j);
            proof {
                assert(dealer =~= s@.subrange(i + 2, j as int));
            }
            d
        };
        let act_ok: bool = j + 1 < n;
        if !(hand_ok && dealer_ok && act_ok) {
            return Err(String::from_str("Invalid syntax"));
        }

        // The hand names a table and a row.
        let (table, row): (DeviationTable, u8) = match pairish {
            Some(_) => {
                let c0 = s.get_char(0);
                if c0 == 'A' {
                    (DeviationTable::PairTable, 9)
                } else if c0 == 'T' {
                    (DeviationTable::PairTable, 0)
                } else {
                    let d = (c0 as u32 - '0' as u32) as u8;
                    if d < 1 {
                        return Err(String::from_str("Invalid pair"));
                    }
                    (DeviationTable::PairTable, 10 - d)
                }
            },
            None => {
                if i >= 2 && s.get_char(0) == 'A' {
                    if i == 2 && s.get_char(1) == 'A' {
                        (DeviationTable::SoftTable, 9)
                    } else {
                        match parse_digits_capped(s, 1, i, 255) {
                            None => {
                                return Err(String::from_str("Invalid syntax"));
                            },
                            Some(v) => {
                                if v < 1 || v > 10 {
                                    return Err(String::from_str("Invalid soft total"));
                                }
                                (DeviationTable::SoftTable, 10 - (v as u8))
                            },
                        }
                    }
                } else {
                    match parse_digits_capped(s, 0, i, 255) {
                        None => {
                            return Err(String::from_str("Invalid syntax"));
                        },
                        Some(v) => {
                            if v > 20 || v < 4 {
                                return Err(String::from_str("Invalid hard total"));
                            }
                            (DeviationTable::HardTable, 20 - (v as u8))
                        },
                    }
                }
            },
        };

        // The dealer part names a column.
        let dealer_col: u8 = if j == i + 3 && s.get_char(i + 2) == 'A' {
            1
        } else {
            match parse_digits_capped(s, i + 2, j, 255) {
                None => {
                    return Err(String::from_str("Invalid dealer card"));
                },
                Some(v) => {
                    if v == 0 || v > 10 {
                        return Err(String::from_str("Invalid dealer card"));
                    }
                    v as u8
                },
            }
        };

        // The rest is the override record.
        let ghost whole = s@;
        let action = match parse_override_range(s, j + 1, n) {
            Err(e) => {
                return Err(e);
            },
            Ok(ov) => ov,
        };
        Ok(Deviation { table, row, dealer: dealer_col, action })
    }
}

/// Parses the character range `[from, to)` of `s` as an override record.
fn parse_override_range(s: &str, from: usize, to: usize) -> (r: Result<DevOverride, String>)
    requires
        from <= to <= s@.len(),
    ensures
        match r {
            Ok(ov) => spec_parse_override(s@.subrange(from as int, to as int))
                == Ok::<DevOverride, Seq<char>>(ov) && ov.wf(),
            Err(e) => spec_parse_override(s@.subrange(from as int, to as int))
                == Err::<DevOverride, Seq<char>>(e@),
        },
{
    let ghost part = s@.subrange(from as int, to as int);
    if to - from < 3 || !(s.get_char(from) == '>' || s.get_char(from) == '<') {
        proof {
            reveal_strlit("Invalid syntax");
            if to - from >= 1 {
                assert(part[0] == s@[from as int]);
            }
        }
        return Err(String::from_str("Invalid syntax"));
    }
    proof {
        assert(part[0] == s@[from as int]);
        assert(part[part.len() - 1] == s@[to - 1]);
        assert(part.subrange(1, part.len() - 1) =~= s@.subrange(from + 1, to - 1));
    }
    let a = s.get_char(to - 1);
    match parse_devnum(s, from + 1, to - 1) {
        DevnumOutcome::BadShape => {
            proof {
                reveal_strlit("Invalid syntax");
            }
            Err(String::from_str("Invalid syntax"))
        },
        DevnumOutcome::TooBig => {
            proof {
                reveal_strlit("Invalid true count");
            }
            Err(String::from_str("Invalid true count"))
        },
        DevnumOutcome::Value(tc) => {
            if !is_action_char(a) {
                proof {
                    reveal_strlit("Invalid action");
                }
                Err(String::from_str("Invalid action"))
            } else if s.get_char(from) == '>' {
                Ok(DevOverride::AboveEqual(tc, a))
            } else {
                Ok(DevOverride::UnderEqual(tc, a))
            }
        },
    }
}

// ---------------------------------------------------------------------------
// Round trip of canonical four-character override codes
// ---------------------------------------------------------------------------

/// A canonical four-character override code: a direction, an explicit sign,
/// one digit, and an action character. These are the codes the deviation
/// tables store, four characters per cell.
pub open spec fn spec_is_code4(s: Seq<char>) -> bool {
    &&& s.len() == 4
    &&& (s[0] == '>' || s[0] == '<')
    &&& (s[1] == '+' || s[1] == '-')
    &&& is_digit(s[2])
    &&& spec_is_action(s[3])
}

/// Parsing a four-character override code always succeeds, and serializing
/// the parsed override reproduces exactly the original four characters.
pub proof fn lemma_override_round_trip(code: Seq<char>)
    requires
        spec_is_code4(code),
    ensures
        spec_parse_override(code) is Ok,
        spec_override_str(spec_parse_override(code)->Ok_0) =~= code,
{
    let mid = code.subrange(1, 3);
    assert(mid.len() == 2);
    assert(mid[0] == code[1]);
    assert(mid[1] == code[2]);
    assert(devnum_body_start(mid) == 1);
    assert(spec_find_in(mid, '.', 1, 2) is None) by {
        reveal_with_fuel(spec_find_in, 3);
        assert(mid[1] != '.');
    }
    let digits = mid.subrange(1, 2);
    assert(digits[0] == code[2]);
    assert(all_digits(digits));
    assert(devnum_shape(mid));
    assert(digits_val(digits) == digit_val(code[2])) by {
        reveal_with_fuel(digits_val, 3);
        assert(digits.drop_last() =~= Seq::<char>::empty());
        assert(digits.last() == code[2]);
    }
    assert(0 <= digit_val(code[2]) <= 9);
    assert(devnum_small(mid));
    assert(devnum_frac_len(mid) == 0);
    let tc = spec_devnum(mid);
    assert(spec_canon(digit_val(code[2]) as nat, 0) == (digit_val(code[2]) as nat, 0nat));
    assert(tc.mag == digit_val(code[2]));
    assert(tc.frac_len == 0);
    assert(tc.neg == (code[1] == '-'));
    let ov = spec_parse_override(code)->Ok_0;
    assert(ov.spec_tc() == tc);
    assert(ov.spec_action() == code[3]);
    assert(spec_digits(tc.mag as nat) =~= seq![spec_digit_char(digit_val(code[2]))]);
    assert(spec_digit_char(digit_val(code[2])) == code[2]);
    assert(spec_override_str(ov) =~= code);
}

/// Finding a character in a shifted window of the same string finds it at
/// the shifted place.
proof fn lemma_shift_find(s: Seq<char>, from: int, to: int, b: int, c: char)
    requires
        0 <= from <= b <= to <= s.len(),
    ensures
        ({
            let part = s.subrange(from, to);
            match spec_find_in(s, c, b, to) {
                Some(i) => spec_find_in(part, c, b - from, part.len() as int) == Some(i - from),
                None => spec_find_in(part, c, b - from, part.len() as int) is None,
            }
        }),
    decreases to - b,
{
    let part = s.subrange(from, to);
    if b < to {
        assert(part[b - from] == s[b]);
        if s[b] != c {
            lemma_shift_find(s, from, to, b + 1, c);
        }
    }
}

/// Divides out trailing zero fraction digits.
fn canonicalize(mag0: u64, k0: u32) -> (r: (u64, u32))
    ensures
        (r.0 as nat, r.1 as nat) == spec_canon(mag0 as nat, k0 as nat),
{
    let mut mag = mag0;
    let mut k = k0;
    while k > 0 && mag % 10 == 0
        invariant
            spec_canon(mag0 as nat, k0 as nat) == spec_canon(mag as nat, k as nat),
        decreases k,
    {
        mag = mag / 10;
        k = k - 1;
    }
    (mag, k)
}

} // verus!
