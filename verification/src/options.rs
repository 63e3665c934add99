//! Pure parsing helpers for the command-line options: scaled round counts,
//! card lists, penetration expressions, and the running-count correction
//! for externally fixed starting cards.

use vstd::prelude::*;
use crate::card::Card;
use crate::parse_num::{
    all_digits, digits_val, is_digit, spec_find_in, spec_parse_uint,
    find_char, check_all_digits, parse_digits_capped, lemma_digits_val_nonneg,
};
use crate::shoe::standard_shoe::spec_hilo_sum;

verus! {

/// What parsing a scaled round count yields: a plain number, or one scaled
/// by a `k`, `M` or `G` suffix; any other trailing character is refused,
/// and so is a value that does not fit.
pub open spec fn spec_parse_suffix_int(s: Seq<char>) -> Result<int, Seq<char>> {
    if s.len() == 0 {
        Err("Empty parameter"@)
    } else {
        let last = s[s.len() - 1];
        let scale: int = if last == 'k' {
            1000
        } else if last == 'M' {
            1000000
        } else if last == 'G' {
            1000000000
        } else if is_digit(last) {
            1
        } else {
            0
        };
        if scale == 0 {
            Err("Unknown suffix"@)
        } else {
            let body = if scale > 1 {
                s.subrange(0, s.len() - 1)
            } else {
                s
            };
            match spec_parse_uint(body) {
                None => Err("Invalid number"@),
                Some(v) => if v * scale <= 0xFFFF_FFFF_FFFF_FFFF {
                    Ok(v * scale)
                } else {
                    Err("Invalid number"@)
                },
            }
        }
    }
}

/// Parses a round count such as `"12k"` or `"388M"`: a decimal number with
/// an optional thousand, million or billion suffix.
pub fn parse_suffix_int(s: &str) -> (r: Result<u64, String>)
    ensures
        match r {
            Ok(v) => spec_parse_suffix_int(s@) == Ok::<int, Seq<char>>(v as int),
            Err(e) => spec_parse_suffix_int(s@) == Err::<int, Seq<char>>(e@),
        },
{
    proof {
        reveal_strlit("Empty parameter");
        reveal_strlit("Unknown suffix");
        reveal_strlit("Invalid number");
    }
    let n = s.unicode_len();
    if n == 0 {
        return Err(String::from_str("Empty parameter"));
    }
    let last = s.get_char(n - 1);
    let scale: u64 = if last == 'k' {
        1000
    } else if last == 'M' {
        1000000
    } else if last == 'G' {
        1000000000
    } else if '0' <= last && last <= '9' {
        1
    } else {
        return Err(String::from_str("Unknown suffix"));
    };
    let end = if scale > 1 {
        n - 1
    } else {
        n
    };
    let ghost body = if scale > 1 {
        s@.subrange(0, s@.len() - 1)
    } else {
        s@
    };
    let from: usize = if end > 0 && s.get_char(0) == '+' {
        1
    } else {
        0
    };
    proof {
        if end > 0 {
            assert(body[0] == s@[0]);
        }
        if from == 1 {
            assert(body.skip(1) =~= s@.subrange(1, end as int));
        } else {
            assert(body =~= s@.subrange(0, end as int));
        }
    }
    let base = match parse_digits_capped(s, from, end, 0xFFFF_FFFF_FFFF_FFFF) {
        None => {
            return Err(String::from_str("Invalid number"));
        },
        Some(v) => v,
    };
    proof {
        lemma_digits_val_nonneg(s@.subrange(from as int, end as int));
    }
    if scale > 1 && base > 0xFFFF_FFFF_FFFF_FFFF / scale {
        proof {
            let b = base as int;
            let sc = scale as int;
            assert(b > (0xFFFF_FFFF_FFFF_FFFF as int) / sc ==> b * sc > 0xFFFF_FFFF_FFFF_FFFF)
                by (nonlinear_arith)
                requires
                    sc == 1000 || sc == 1000000 || sc == 1000000000,
                    b >= 0,
            ;
        }
        return Err(String::from_str("Invalid number"));
    }
    proof {
        let b = base as int;
        let sc = scale as int;
        assert(b * 1 == b);
        if sc > 1 {
            assert(b <= (0xFFFF_FFFF_FFFF_FFFF as int) / sc ==> b * sc <= 0xFFFF_FFFF_FFFF_FFFF)
                by (nonlinear_arith)
                requires
                    sc == 1000 || sc == 1000000 || sc == 1000000000,
                    b >= 0,
            ;
        }
    }
    Ok(base * scale)
}

/// Joins one parsed card onto the rest of a comma-separated list.
pub open spec fn spec_list_append(c: Result<Card, &'static str>, rest: Result<
    Seq<Card>,
    &'static str,
>) -> Result<Seq<Card>, &'static str> {
    match c {
        Err(e) => Err(e),
        Ok(card) => match rest {
            Err(e) => Err(e),
            Ok(cards) => Ok(seq![card] + cards),
        },
    }
}

/// What parsing the comma-separated card list from position `from` on
/// yields: each comma-delimited piece must be a card.
pub open spec fn spec_card_list_from(s: Seq<char>, from: int) -> Result<Seq<Card>, &'static str>
    decreases s.len() - from,
{
    if from < 0 || from > s.len() {
        Err("Invalid card")
    } else {
        match spec_find_in(s, ',', from, s.len() as int) {
            None => match Card::spec_from_str(s.subrange(from, s.len() as int)) {
                Err(e) => Err(e),
                Ok(c) => Ok(seq![c]),
            },
            Some(j) => if j < from || j >= s.len() {
                Err("Invalid card")
            } else {
                spec_list_append(
                    Card::spec_from_str(s.subrange(from, j)),
                    spec_card_list_from(s, j + 1),
                )
            },
        }
    }
}

/// Parses a comma-separated card list such as `"A,8,3"`.
pub fn parse_card_list(s: &str) -> (r: Result<Vec<Card>, &'static str>)
    ensures
        match r {
            Ok(v) => spec_card_list_from(s@, 0) == Ok::<Seq<Card>, &'static str>(v@)
                && crate::hand::all_valid(v@),
            Err(e) => spec_card_list_from(s@, 0) == Err::<Seq<Card>, &'static str>(e),
        },
{
    let n = s.unicode_len();
    let mut out: Vec<Card> = Vec::new();
    let mut pos: usize = 0;
    loop
        invariant
            pos <= n == s@.len(),
            crate::hand::all_valid(out@),
            spec_card_list_from(s@, 0) == (match spec_card_list_from(s@, pos as int) {
                Err(e) => Err::<Seq<Card>, &'static str>(e),
                Ok(rest) => Ok::<Seq<Card>, &'static str>(out@ + rest),
            }),
        decreases s@.len() - pos,
    {
        match find_char(s, pos, n, ',') {
            None => {
                let piece = s.substring_char(pos, n);
                match Card::try_from_str(piece) {
                    Err(e) => {
                        return Err(e);
                    },
                    Ok(c) => {
                        let ghost prev = out@;
                        out.push(c);
                        proof {
                            assert(prev + seq![c] =~= out@);
                        }
                        return Ok(out);
                    },
                }
            },
            Some(j) => {
                proof {
                    crate::parse_num::lemma_find_in_props(s@, ',', pos as int, n as int);
                }
                let piece = s.substring_char(pos, j);
                match Card::try_from_str(piece) {
                    Err(e) => {
                        return Err(e);
                    },
                    Ok(c) => {
                        let ghost prev = out@;
                        out.push(c);
                        proof {
                            assert(prev + seq![c] =~= out@);
                            let tail = spec_card_list_from(s@, j + 1);
                            if tail is Ok {
                                assert(prev + (seq![c] + tail->Ok_0)
                                    =~= (prev + seq![c]) + tail->Ok_0);
                            }
                        }
                        pos = j + 1;
                    },
                }
            },
        }
    }
}

/// The rounded number of cards that a percentage of the shoe names:
/// `round(p / 100 * 52 * decks)`, halves rounded up.
pub open spec fn spec_pen_of_percent(p: int, decks: int) -> int {
    (2 * p * 52 * decks + 100) / 200
}

/// The rounded number of cards that a ratio of the shoe names:
/// `round(a / b * 52 * decks)`, halves rounded up.
pub open spec fn spec_pen_of_ratio(a: int, b: int, decks: int) -> int {
    (2 * a * 52 * decks + b) / (2 * b)
}

/// What parsing a penetration expression yields, for a shoe of `decks`
/// decks: a percentage (`"80%"`), a ratio (`"5/6"`), a number of decks
/// (`"4d"`), or a plain number of cards; the result must be positive and
/// cannot exceed the whole shoe.
pub open spec fn spec_parse_penetration(s: Seq<char>, decks: int) -> Result<int, &'static str> {
    let n = s.len() as int;
    let pen: Result<int, &'static str> = if n >= 2 && s[n - 1] == '%' && all_digits(
        s.subrange(0, n - 1),
    ) {
        let p = digits_val(s.subrange(0, n - 1));
        if p > 1_000_000 {
            Err("Penetration cannot exceed 100 %")
        } else {
            Ok(spec_pen_of_percent(p, decks))
        }
    } else if spec_ratio_split(s) is Some {
        let j = spec_ratio_split(s)->Some_0;
        let a = digits_val(s.subrange(0, j));
        let b = digits_val(s.subrange(j + 1, n));
        if a > 0xFFFF_FFFF || b > 0xFFFF_FFFF {
            Err("Invalid penetration")
        } else if b == 0 {
            Err("Invalid penetration")
        } else {
            Ok(spec_pen_of_ratio(a, b, decks))
        }
    } else if n >= 2 && s[n - 1] == 'd' && all_digits(s.subrange(0, n - 1)) {
        let c = digits_val(s.subrange(0, n - 1));
        if c > 0xFFFF_FFFF {
            Err("Invalid penetration")
        } else {
            Ok(c * 52)
        }
    } else {
        match spec_parse_uint(s) {
            None => Err("Invalid penetration"),
            Some(v) => if v > 0xFFFF_FFFF {
                Err("Invalid penetration")
            } else {
                Ok(v)
            },
        }
    };
    match pen {
        Err(e) => Err(e),
        Ok(v) => if v > 52 * decks {
            Err("Penetration cannot exceed 100 %")
        } else if v == 0 {
            Err("Invalid penetration")
        } else {
            Ok(v)
        },
    }
}

/// The position of the `/` of a well-shaped ratio: digits on both sides.
pub open spec fn spec_ratio_split(s: Seq<char>) -> Option<int> {
    match spec_find_in(s, '/', 0, s.len() as int) {
        None => None,
        Some(j) => if 1 <= j && j + 1 < s.len() && all_digits(s.subrange(0, j)) && all_digits(
            s.subrange(j + 1, s.len() as int),
        ) {
            Some(j)
        } else {
            None
        },
    }
}

/// Parses a penetration expression — the number of cards dealt from the
/// shoe before reshuffling — given the number of decks in play.
pub fn parse_penetration(arg: &str, decks: u32) -> (r: Result<u32, &'static str>)
    requires
        1 <= decks <= 1000,
    ensures
        match r {
            Ok(v) => spec_parse_penetration(arg@, decks as int) == Ok::<int, &'static str>(
                v as int,
            ) && v <= 52 * decks,
            Err(e) => spec_parse_penetration(arg@, decks as int) == Err::<int, &'static str>(e),
        },
{
    let n = arg.unicode_len();
    let pen: u64 = if n >= 2 && arg.get_char(n - 1) == '%' && check_all_digits(arg, 0, n - 1) {
        match parse_digits_capped(arg, 0, n - 1, 1_000_000) {
            None => {
                return Err("Penetration cannot exceed 100 %");
            },
            Some(p) => {
                proof {
                    let pi = p as int;
                    let di = decks as int;
                    assert(0 <= 2 * pi * 52 * di <= 104_000_000_000) by (nonlinear_arith)
                        requires
                            0 <= pi <= 1_000_000,
                            1 <= di <= 1000,
                    ;
                }
                (2 * p * 52 * (decks as u64) + 100) / 200
            },
        }
    } else {
        let slash = find_char(arg, 0, n, '/');
        proof {
            if slash is Some {
                crate::parse_num::lemma_find_in_props(arg@, '/', 0, n as int);
            }
        }
        let ratio_ok = match slash {
            Some(j) => 1 <= j && j + 1 < n && check_all_digits(arg, 0, j) && check_all_digits(
                arg,
                j + 1,
                n,
            ),
            None => false,
        };
        if ratio_ok {
            let j = slash.unwrap();
            let a = match parse_digits_capped(arg, 0, j, 0xFFFF_FFFF) {
                None => {
                    return Err("Invalid penetration");
                },
                Some(a) => a,
            };
            let b = match parse_digits_capped(arg, j + 1, n, 0xFFFF_FFFF) {
                None => {
                    return Err("Invalid penetration");
                },
                Some(b) => b,
            };
            if b == 0 {
                return Err("Invalid penetration");
            }
            proof {
                let ai = a as int;
                let di = decks as int;
                assert(0 <= 2 * ai * 52 * di <= 450_000_000_000_000) by (nonlinear_arith)
                    requires
                        0 <= ai <= 0xFFFF_FFFF,
                        1 <= di <= 1000,
                ;
            }
            (2 * a * 52 * (decks as u64) + b) / (2 * b)
        } else if n >= 2 && arg.get_char(n - 1) == 'd' && check_all_digits(arg, 0, n - 1) {
            match parse_digits_capped(arg, 0, n - 1, 0xFFFF_FFFF) {
                None => {
                    return Err("Invalid penetration");
                },
                Some(c) => c * 52,
            }
        } else {
            let from: usize = if n > 0 && arg.get_char(0) == '+' {
                1
            } else {
                0
            };
            proof {
                if from == 1 {
                    assert(arg@.skip(1) =~= arg@.subrange(1, n as int));
                } else {
                    assert(arg@ =~= arg@.subrange(0, n as int));
                }
            }
            match parse_digits_capped(arg, from, n, 0xFFFF_FFFF) {
                None => {
                    return Err("Invalid penetration");
                },
                Some(v) => v,
            }
        }
    };

    if pen > 52 * (decks as u64) {
        return Err("Penetration cannot exceed 100 %");
    }
    if pen == 0 {
        return Err("Invalid penetration");
    }
    Ok(pen as u32)
}

/// One step of the Hi-Lo correction: +1 for each high card in the list,
/// -1 for each low card, which is exactly minus the list's Hi-Lo weight.
pub open spec fn spec_rc_adjust(
    hilo_counting: bool,
    start_cards: Option<Seq<Card>>,
    dealer_cards: Option<Seq<Card>>,
) -> Option<int> {
    if !hilo_counting {
        None
    } else {
        let a = match start_cards {
            Some(cs) => -spec_hilo_sum(cs),
            None => 0int,
        };
        let b = match dealer_cards {
            Some(cs) => -spec_hilo_sum(cs),
            None => 0int,
        };
        if a + b != 0 {
            Some(a + b)
        } else {
            None
        }
    }
}

/// Calculates how much the running count (RC) must be adjusted based on
/// start cards for players and dealer.
///
/// # Parameters
///
///  * `hilo_counting` - Whether Hi-Lo card counting is enabled, if false no
///    adjustment is required;
///  * `start_cards` - Players' starting cards;
///  * `dealer_cards` - Dealer's starting cards.
///
/// The adjustment counts one for each high card (ace and ten), and minus
/// one for each low card (2 to 6 included). `Some(0)` is never returned.
pub fn get_rc_adjust(
    hilo_counting: bool,
    start_cards: Option<&Vec<Card>>,
    dealer_cards: Option<&Vec<Card>>,
) -> (r: Option<i32>)
    requires
        start_cards matches Some(v) ==> v@.len() <= 1_000_000,
        dealer_cards matches Some(v) ==> v@.len() <= 1_000_000,
    ensures
        ({
            let sc = match start_cards {
                Some(v) => Some(v@),
                None => None,
            };
            let dc = match dealer_cards {
                Some(v) => Some(v@),
                None => None,
            };
            match r {
                Some(x) => spec_rc_adjust(hilo_counting, sc, dc) == Some(x as int),
                None => spec_rc_adjust(hilo_counting, sc, dc) is None,
            }
        }),
{
    if !hilo_counting {
        return None;
    }
    let mut rel_rc: i64 = 0;
    if let Some(cards) = start_cards {
        rel_rc = rel_rc + neg_hilo_weight(cards);
    }
    if let Some(cards) = dealer_cards {
        rel_rc = rel_rc + neg_hilo_weight(cards);
    }
    if rel_rc != 0 {
        Some(rel_rc as i32)
    } else {
        None
    }
}

/// Minus the Hi-Lo weight of a card list.
fn neg_hilo_weight(cards: &Vec<Card>) -> (r: i64)
    requires
        cards@.len() <= 1_000_000,
    ensures
        r == -spec_hilo_sum(cards@),
        -1_000_000 <= r <= 1_000_000,
{
    proof {
        crate::shoe::standard_shoe::lemma_counts_bounds(cards@);
    }
    let mut total: i64 = 0;
    let mut i: usize = 0;
    while i < cards.len()
        invariant
            i <= cards@.len() <= 1_000_000,
            total == -spec_hilo_sum(cards@.subrange(0, i as int)),
            -1_000_000 <= total <= 1_000_000,
        decreases cards@.len() - i,
    {
        proof {
            assert(cards@.subrange(0, i + 1).drop_last() =~= cards@.subrange(0, i as int));
            assert(cards@.subrange(0, i + 1).last() == cards@[i as int]);
            crate::shoe::standard_shoe::lemma_counts_bounds(cards@.subrange(0, i + 1));
        }
        let c = cards[i];
        if c.0 == 1 || c.0 == 10 {
            total = total + 1;
        } else if c.0 < 7 && c.0 >= 2 {
            total = total - 1;
        }
        i = i + 1;
    }
    proof {
        assert(cards@.subrange(0, cards@.len() as int) =~= cards@);
    }
    total
}

} // verus!
