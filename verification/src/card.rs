use vstd::prelude::*;
use crate::parse_num::{spec_parse_uint, parse_uint_capped};

verus! {

/// A playing card reduced to its blackjack rank: 1 is an ace, 2 to 9 count
/// face value, and 10 stands for every ten-valued card. Suits never matter.
#[derive(Copy, Clone, PartialEq, Eq, Structural, Debug)]
pub struct Card(pub u8);

impl Card {
    /// A card is meaningful only with a rank between 1 (ace) and 10.
    pub open spec fn valid(self) -> bool {
        1 <= self.0 <= 10
    }

    /// Hi-Lo weight of the card: low cards (2-6) count +1 when removed from
    /// the shoe, tens and aces count -1, everything else counts 0.
    pub open spec fn spec_hilo(self) -> int {
        if 2 <= self.0 <= 6 {
            1
        } else if self.0 == 1 || self.0 == 10 {
            -1
        } else {
            0
        }
    }

    pub fn hilo(self) -> (r: i32)
        ensures
            r == self.spec_hilo(),
    {
        if 2 <= self.0 && self.0 <= 6 {
            1
        } else if self.0 == 1 || self.0 == 10 {
            -1
        } else {
            0
        }
    }

    /// What parsing a card from text yields: `"A"` is the ace, otherwise the
    /// text must read as a number between 2 and 10.
    pub open spec fn spec_from_str(s: Seq<char>) -> Result<Card, &'static str> {
        if s =~= seq!['A'] {
            Ok(Card(1))
        } else {
            match spec_parse_uint(s) {
                Some(n) => if 2 <= n <= 10 {
                    Ok(Card(n as u8))
                } else {
                    Err("Invalid card")
                },
                None => Err("Invalid card"),
            }
        }
    }

    /// Parses a card from its textual form: `"A"` or `"2"` to `"10"`.
    pub fn try_from_str(value: &str) -> (r: Result<Card, &'static str>)
        ensures
            r == Card::spec_from_str(value@),
            r matches Ok(c) ==> c.valid(),
    {
        if value.unicode_len() == 1 && value.get_char(0) == 'A' {
            proof {
                assert(value@ =~= seq!['A']);
            }
            Ok(Card(1))
        } else {
            proof {
                assert(!(value@ =~= seq!['A']));
            }
            match parse_uint_capped(value, 255) {
                Some(n) => {
                    if n < 2 || n > 10 {
                        Err("Invalid card")
                    } else {
                        Ok(Card(n as u8))
                    }
                },
                None => Err("Invalid card"),
            }
        }
    }
}

} // verus!
