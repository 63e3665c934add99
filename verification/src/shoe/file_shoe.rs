use vstd::prelude::*;
use crate::card::Card;
use crate::hand::all_valid;
use crate::shoe::{CardShoe, ShoeError};
use crate::strategy::TrueCount;

verus! {

/// Largest card file a shoe will accept; keeps every position sum far from
/// overflow.
pub const MAX_FILE_CARDS: usize = 100_000_000;

/// A shoe replaying a fixed card sequence: it walks the sequence with a
/// stride that starts at one and grows by one at each wrap-around, ending
/// once the stride reaches a tenth of the sequence. This stretches a
/// recorded card file over many more picks than it holds cards.
pub struct FileShoe {
    cards: Vec<Card>,
    curr_pos: usize,
    stride: usize,
    ended: bool,
}

impl FileShoe {
    pub closed spec fn spec_cards(&self) -> Seq<Card> {
        self.cards@
    }

    pub closed spec fn spec_pos(&self) -> int {
        self.curr_pos as int
    }

    pub closed spec fn spec_stride(&self) -> int {
        self.stride as int
    }

    pub closed spec fn spec_ended(&self) -> bool {
        self.ended
    }

    /// How many picks can still come: an upper bound that shrinks with
    /// every pick, used to show that draining the shoe terminates.
    pub open spec fn spec_measure(&self) -> int {
        if self.spec_ended() {
            0
        } else {
            let len = self.spec_cards().len() as int;
            (len / 10 + 2 - self.spec_stride()) * len + (len - self.spec_pos())
        }
    }

    /// Builds a file shoe from the raw bytes of a card file; every byte
    /// must be a card rank from 1 to 10.
    pub fn from_bytes(bytes: &[u8]) -> (r: Result<FileShoe, &'static str>)
        ensures
            match r {
                Ok(shoe) => {
                    &&& shoe.wf()
                    &&& bytes@.len() <= MAX_FILE_CARDS
                    &&& shoe.spec_cards() == bytes@.map_values(|b: u8| Card(b))
                    &&& shoe.spec_pos() == 0
                    &&& shoe.spec_stride() == 1
                    &&& !shoe.spec_ended()
                    &&& forall|i: int| 0 <= i < bytes@.len() ==> 1 <= #[trigger] bytes@[i] <= 10
                },
                Err(_) => bytes@.len() > MAX_FILE_CARDS || exists|i: int|
                    0 <= i < bytes@.len() && !(1 <= #[trigger] bytes@[i] <= 10),
            },
    {
        if bytes.len() > MAX_FILE_CARDS {
            return Err("Card file too large");
        }
        let mut cards: Vec<Card> = Vec::new();
        let mut i: usize = 0;
        while i < bytes.len()
            invariant
                i <= bytes@.len() <= MAX_FILE_CARDS,
                cards@ =~= bytes@.subrange(0, i as int).map_values(|b: u8| Card(b)),
                forall|j: int| 0 <= j < i ==> 1 <= #[trigger] bytes@[j] <= 10,
            decreases bytes@.len() - i,
        {
            let b = bytes[i];
            if b < 1 || b > 10 {
                return Err("Invalid card in shoe file");
            }
            cards.push(Card(b));
            proof {
                assert(bytes@.subrange(0, i + 1).map_values(|b: u8| Card(b))
                    =~= bytes@.subrange(0, i as int).map_values(|b: u8| Card(b)).push(
                    Card(bytes@[i as int])));
            }
            i = i + 1;
        }
        proof {
            assert(bytes@.subrange(0, bytes@.len() as int) =~= bytes@);
        }
        Ok(FileShoe { cards, curr_pos: 0, stride: 1, ended: false })
    }

    /// Yields the card at the current position and advances by the stride,
    /// growing the stride at each wrap-around until the shoe ends.
    pub fn next_card(&mut self) -> (r: Option<Card>)
        requires
            old(self).wf(),
        ensures
            final(self).wf(),
            final(self).spec_cards() == old(self).spec_cards(),
            match r {
                Some(c) => {
                    &&& !old(self).spec_ended()
                    &&& old(self).spec_cards().len() > 0
                    &&& c == old(self).spec_cards()[old(self).spec_pos()]
                    &&& final(self).spec_measure() < old(self).spec_measure()
                },
                None => *final(self) == *old(self) && (old(self).spec_ended()
                    || old(self).spec_cards().len() == 0),
            },
    {
        let pos = self.curr_pos;
        if self.ended || self.cards.len() == 0 {
            return None;
        }

        self.curr_pos = self.curr_pos + self.stride;
        if self.curr_pos >= self.cards.len() {
            self.stride = self.stride + 1;
            if self.stride >= self.cards.len() / 10 {
                self.ended = true;
            }
            self.curr_pos = self.curr_pos - self.cards.len();
        }

        proof {
            let len = old(self).spec_cards().len() as int;
            let s0 = old(self).spec_stride();
            assert(len >= 1);
            assert(len / 10 + 2 - s0 >= 1);
            assert((len / 10 + 2 - s0) * len >= len) by (nonlinear_arith)
                requires
                    len / 10 + 2 - s0 >= 1,
                    len >= 1,
            ;
            assert((len / 10 + 2 - (s0 + 1)) * len == (len / 10 + 2 - s0) * len - len)
                by (nonlinear_arith);
        }
        Some(self.cards[pos])
    }
}

impl CardShoe for FileShoe {
    closed spec fn spec_needs_reshuffle(&self) -> bool {
        false
    }

    closed spec fn wf(&self) -> bool {
        &&& all_valid(self.cards@)
        &&& self.cards@.len() <= MAX_FILE_CARDS
        &&& (self.cards@.len() > 0 ==> self.curr_pos < self.cards@.len())
        &&& (self.cards@.len() == 0 ==> self.curr_pos == 0)
        &&& 1 <= self.stride
        &&& (!self.ended ==> self.stride == 1 || self.stride < self.cards@.len() / 10)
    }

    fn try_pick(&mut self) -> (r: Option<Card>)
        ensures
            final(self).spec_cards() == old(self).spec_cards(),
            r matches Some(c) ==> !old(self).spec_ended()
                && old(self).spec_cards().len() > 0
                && c == old(self).spec_cards()[old(self).spec_pos()],
            r is None ==> *final(self) == *old(self)
                && (old(self).spec_ended() || old(self).spec_cards().len() == 0),
    {
        self.next_card()
    }

    /// Walks the recording until the requested rank comes up; the cards
    /// skimmed past on the way are consumed. Only an ended or empty shoe
    /// fails to find a valid rank eventually or run out.
    fn try_pick_first(&mut self, card: Card) -> (r: Option<Card>)
        ensures
            final(self).spec_cards() == old(self).spec_cards(),
            r is None ==> final(self).spec_ended() || final(self).spec_cards().len() == 0,
            r matches Some(c) ==> !old(self).spec_ended() && old(self).spec_cards().len() > 0,
    {
        loop
            invariant
                self.wf(),
                self.spec_cards() == old(self).spec_cards(),
                !self.spec_ended() ==> !old(self).spec_ended(),
                self.spec_cards().len() > 0 ==> old(self).spec_cards().len() > 0,
                old(self).spec_ended() ==> self.spec_ended(),
            decreases self.spec_measure(),
        {
            match self.next_card() {
                None => {
                    return None;
                },
                Some(c) => {
                    if c == card {
                        return Some(c);
                    }
                },
            }
        }
    }

    /// Replays the next recorded card; only an ended or empty shoe fails.
    fn pick(&mut self) -> (r: Result<Card, ShoeError>)
        ensures
            final(self).spec_cards() == old(self).spec_cards(),
            r matches Ok(c) ==> !old(self).spec_ended()
                && old(self).spec_cards().len() > 0
                && c == old(self).spec_cards()[old(self).spec_pos()],
            r is Err ==> *final(self) == *old(self)
                && (old(self).spec_ended() || old(self).spec_cards().len() == 0),
            !old(self).spec_ended() && old(self).spec_cards().len() > 0 ==> r is Ok,
    {
        match self.next_card() {
            Some(c) => Ok(c),
            None => Err(ShoeError::Exhausted),
        }
    }

    fn pick_first(&mut self, card: Card) -> (r: Result<Card, ShoeError>)
        ensures
            final(self).spec_cards() == old(self).spec_cards(),
            r is Err ==> final(self).spec_ended() || final(self).spec_cards().len() == 0,
            r matches Ok(c) ==> !old(self).spec_ended() && old(self).spec_cards().len() > 0,
    {
        match self.try_pick_first(card) {
            Some(c) => Ok(c),
            None => Err(ShoeError::CardUnavailable),
        }
    }

    /// A recorded shoe cannot be reshuffled.
    fn reshuffle(&mut self) -> (ok: bool)
        ensures
            *final(self) == *old(self),
            !ok,
    {
        false
    }

    /// A recorded shoe cannot force a true count.
    fn force_true_count(&mut self, tc_tenths: i32) -> (r: Result<(), ShoeError>)
        ensures
            *final(self) == *old(self),
            r == Err::<(), ShoeError>(ShoeError::Unsupported),
    {
        Err(ShoeError::Unsupported)
    }

    /// A recorded shoe cannot adjust its running count.
    fn adjust_running_count(&mut self, rel_rc: i32) -> (r: Result<(), ShoeError>)
        ensures
            *final(self) == *old(self),
            r == Err::<(), ShoeError>(ShoeError::Unsupported),
    {
        Err(ShoeError::Unsupported)
    }

    fn needs_reshuffle(&self) -> (r: bool)
        ensures
            !r,
    {
        false
    }

    /// A recorded shoe does not track a count.
    fn running_count(&self) -> (r: i32)
        ensures
            r == 0,
    {
        0
    }

    /// A recorded shoe does not track a count.
    fn true_count(&self) -> (r: TrueCount)
        ensures
            r == (TrueCount { rc: 0, cards_left: 0 }),
    {
        TrueCount::zero()
    }
}

} // verus!
