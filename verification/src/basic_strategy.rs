//! Table-driven basic strategy with count-triggered deviations.
//!
//! The three base tables give one action code per hand row and dealer
//! up-card column. Codes: `+` hit, `=` stand, `D`/`d` double (falling back
//! to hit/stand when doubling is not allowed), `V` split, and the
//! conditional codes resolved against the rules after lookup: `?` doubles
//! only in a holecard game, `&` only in a holecard game whose dealer hits
//! soft 17, `h` doubles when the dealer hits soft 17 and stands otherwise.
//! In the pair table, `*` splits only with double-after-split, `?` only in
//! a holecard game, `@` only in a holecard game whose dealer stands on
//! soft 17. The surrender codes `S`/`s`, `E`/`e`, `U`/`u` read as hit/stand
//! during play and carry the surrender verdicts.

use vstd::prelude::*;
use crate::card::Card;
use crate::hand::{Hand, spec_value, spec_soft, spec_busted, spec_hard_sum, spec_has_ace, all_valid, lemma_hard_sum_bounds};
use crate::strategy::{Strategy, GameContext, Decision, StrategyError, spec_tc_rounded, spec_tc_at_least};
use crate::game_rules::{GameType, Soft17};
use crate::deviation::{Deviation, DeviationTable, DevOverride};

verus! {

/// The hard-total table: one action code for each total from 20 down to 4
/// against each dealer up-card (1 is the ace).
pub open spec fn spec_hard_action(total: int, up: int) -> char {
    if total >= 18 {
        '='
    } else if total == 17 {
        if up == 1 { 'u' } else { '=' }
    } else if total == 16 {
        if up == 1 { 'S' } else if up <= 6 { '=' } else if up <= 8 { '+' } else { 'S' }
    } else if total == 15 {
        if up == 1 { 'U' } else if up <= 6 { '=' } else if up <= 9 { '+' } else { 'S' }
    } else if total == 14 {
        if up == 1 { 'E' } else if up <= 6 { '=' } else if up <= 9 { '+' } else { 'E' }
    } else if total == 13 {
        if up == 1 { 'E' } else if up <= 6 { '=' } else { '+' }
    } else if total == 12 {
        if up == 1 { 'E' } else if up <= 3 { '+' } else if up <= 6 { '=' } else { '+' }
    } else if total == 11 {
        if up == 1 { '&' } else if up <= 9 { 'D' } else { '?' }
    } else if total == 10 {
        if up == 1 { '+' } else if up <= 9 { 'D' } else { '+' }
    } else if total == 9 {
        if up == 1 || up == 2 { '+' } else if up <= 6 { 'D' } else { '+' }
    } else {
        '+'
    }
}

/// The soft-total table: one action code for each ace companion total from
/// 10 down to 1 against each dealer up-card.
pub open spec fn spec_soft_action(n: int, up: int) -> char {
    if n >= 9 {
        '='
    } else if n == 8 {
        if up == 6 { 'h' } else { '=' }
    } else if n == 7 {
        if up == 1 { '+' } else if up == 2 { 'h' } else if up <= 6 { 'd' }
        else if up <= 8 { '=' } else { '+' }
    } else if n == 6 {
        if up <= 2 { '+' } else if up <= 6 { 'D' } else { '+' }
    } else if n == 5 || n == 4 {
        if up <= 3 { '+' } else if up <= 6 { 'D' } else { '+' }
    } else if n == 3 || n == 2 {
        if up == 5 || up == 6 { 'D' } else { '+' }
    } else {
        if up == 6 { 'D' } else { '+' }
    }
}

/// The pair table: one code for each pair rank (1 is the ace pair) against
/// each dealer up-card; a blank means the pair is never split.
pub open spec fn spec_pair_action(rank: int, up: int) -> char {
    if rank == 1 {
        if up == 1 { '?' } else { 'V' }
    } else if rank == 2 || rank == 3 {
        if up == 2 || up == 3 { '*' } else if 4 <= up <= 7 { 'V' } else { ' ' }
    } else if rank == 4 {
        if up == 5 || up == 6 { '*' } else { ' ' }
    } else if rank == 6 {
        if up == 2 { '*' } else if 3 <= up <= 6 { 'V' } else { ' ' }
    } else if rank == 7 {
        if 2 <= up <= 7 { 'V' } else { ' ' }
    } else if rank == 8 {
        if up == 1 { '@' } else if up <= 9 { 'V' } else { '?' }
    } else if rank == 9 {
        if 2 <= up <= 6 || up == 8 || up == 9 { 'V' } else { ' ' }
    } else {
        ' '
    }
}

pub fn hard_action(total: u8, up: u8) -> (c: char)
    ensures
        c == spec_hard_action(total as int, up as int),
{
    if total >= 18 {
        '='
    } else if total == 17 {
        if up == 1 { 'u' } else { '=' }
    } else if total == 16 {
        if up == 1 { 'S' } else if up <= 6 { '=' } else if up <= 8 { '+' } else { 'S' }
    } else if total == 15 {
        if up == 1 { 'U' } else if up <= 6 { '=' } else if up <= 9 { '+' } else { 'S' }
    } else if total == 14 {
        if up == 1 { 'E' } else if up <= 6 { '=' } else if up <= 9 { '+' } else { 'E' }
    } else if total == 13 {
        if up == 1 { 'E' } else if up <= 6 { '=' } else { '+' }
    } else if total == 12 {
        if up == 1 { 'E' } else if up <= 3 { '+' } else if up <= 6 { '=' } else { '+' }
    } else if total == 11 {
        if up == 1 { '&' } else if up <= 9 { 'D' } else { '?' }
    } else if total == 10 {
        if up == 1 { '+' } else if up <= 9 { 'D' } else { '+' }
    } else if total == 9 {
        if up == 1 || up == 2 { '+' } else if up <= 6 { 'D' } else { '+' }
    } else {
        '+'
    }
}

pub fn soft_action(n: u8, up: u8) -> (c: char)
    ensures
        c == spec_soft_action(n as int, up as int),
{
    if n >= 9 {
        '='
    } else if n == 8 {
        if up == 6 { 'h' } else { '=' }
    } else if n == 7 {
        if up == 1 { '+' } else if up == 2 { 'h' } else if up <= 6 { 'd' }
        else if up <= 8 { '=' } else { '+' }
    } else if n == 6 {
        if up <= 2 { '+' } else if up <= 6 { 'D' } else { '+' }
    } else if n == 5 || n == 4 {
        if up <= 3 { '+' } else if up <= 6 { 'D' } else { '+' }
    } else if n == 3 || n == 2 {
        if up == 5 || up == 6 { 'D' } else { '+' }
    } else {
        if up == 6 { 'D' } else { '+' }
    }
}

pub fn pair_action(rank: u8, up: u8) -> (c: char)
    ensures
        c == spec_pair_action(rank as int, up as int),
{
    if rank == 1 {
        if up == 1 { '?' } else { 'V' }
    } else if rank == 2 || rank == 3 {
        if up == 2 || up == 3 { '*' } else if 4 <= up && up <= 7 { 'V' } else { ' ' }
    } else if rank == 4 {
        if up == 5 || up == 6 { '*' } else { ' ' }
    } else if rank == 6 {
        if up == 2 { '*' } else if 3 <= up && up <= 6 { 'V' } else { ' ' }
    } else if rank == 7 {
        if 2 <= up && up <= 7 { 'V' } else { ' ' }
    } else if rank == 8 {
        if up == 1 { '@' } else if up <= 9 { 'V' } else { '?' }
    } else if rank == 9 {
        if (2 <= up && up <= 6) || up == 8 || up == 9 { 'V' } else { ' ' }
    } else {
        ' '
    }
}

/// One installed deviation: override the table action with `action` once the
/// rounded true count is at or above `thr` (when `above` is set) or at or
/// below it.
#[derive(Debug, PartialEq, Eq, Structural, Copy, Clone)]
pub struct DevCell {
    pub above: bool,
    pub thr: i8,
    pub action: char,
}

/// What a deviation cell yields at a given rounded true count.
pub open spec fn spec_try_deviate(cell: Option<DevCell>, tc: int) -> Option<char> {
    match cell {
        None => None,
        Some(c) => if (c.above && tc >= c.thr) || (!c.above && tc <= c.thr) {
            Some(c.action)
        } else {
            None
        },
    }
}

/// Basic strategy: static base tables plus per-instance deviation overlays,
/// one optional override cell per table cell.
pub struct BasicStrategy {
    hilo: bool,
    deviations: bool,
    dev_hard: Vec<Vec<Option<DevCell>>>,
    dev_soft: Vec<Vec<Option<DevCell>>>,
    dev_pair: Vec<Vec<Option<DevCell>>>,
}

pub open spec fn spec_table_wf(t: Seq<Vec<Option<DevCell>>>, rows: int) -> bool {
    t.len() == rows && forall|r: int| 0 <= r < rows ==> (#[trigger] t[r])@.len() == 11
}

impl BasicStrategy {
    pub closed spec fn spec_hilo(&self) -> bool {
        self.hilo
    }

    pub closed spec fn spec_deviations(&self) -> bool {
        self.deviations
    }

    pub closed spec fn spec_cell(&self, table: DeviationTable, row: int, col: int) -> Option<
        DevCell,
    > {
        // indexes within the row and column ranges of `spec_in_table`

        match table {
            DeviationTable::HardTable => self.dev_hard@[row]@[col],
            DeviationTable::SoftTable => self.dev_soft@[row]@[col],
            DeviationTable::PairTable => self.dev_pair@[row]@[col],
        }
    }

    /// Creates a basic strategy; `hilo` enables count-aware insurance.
    /// No deviations are installed yet.
    pub fn new(hilo: bool) -> (r: BasicStrategy)
        ensures
            r.wf(),
            r.spec_hilo() == hilo,
            !r.spec_deviations(),
            forall|t: DeviationTable, row: int, col: int|
                spec_in_table(t, row, col) ==> (#[trigger] r.spec_cell(t, row, col)) is None,
    {
        BasicStrategy {
            hilo,
            deviations: false,
            dev_hard: make_table(17),
            dev_soft: make_table(10),
            dev_pair: make_table(10),
        }
    }

    /// Installs the stock deviation set: stand on hard 16 against a ten once
    /// the true count reaches +1.
    pub fn set_default_deviations(&mut self)
        requires
            old(self).wf(),
        ensures
            final(self).wf(),
            final(self).spec_deviations(),
            final(self).spec_hilo() == old(self).spec_hilo(),
            final(self).spec_cell(DeviationTable::HardTable, 4, 10)
                == Some(DevCell { above: true, thr: 1, action: '=' }),
            forall|t: DeviationTable, row: int, col: int|
                spec_in_table(t, row, col)
                    && !(t == DeviationTable::HardTable && row == 4 && col == 10)
                    ==> #[trigger] final(self).spec_cell(t, row, col)
                    == old(self).spec_cell(t, row, col),
    {
        self.dev_hard[4][10] = Some(DevCell { above: true, thr: 1, action: '=' });
        self.deviations = true;
        proof {
            assert(self.dev_hard@[4]@ =~= old(self).dev_hard@[4]@.update(
                10, Some(DevCell { above: true, thr: 1, action: '=' })));
        }
    }

    /// Registers a parsed deviation directive, overwriting any previous
    /// override of the same cell. The threshold must be a whole single
    /// digit, as the four-character cell format holds nothing else.
    pub fn add_deviation(&mut self, deviation: Deviation)
        requires
            old(self).wf(),
            deviation.action.spec_tc().frac_len == 0,
            deviation.action.spec_tc().mag <= 9,
            1 <= deviation.dealer <= 10,
            deviation.table == DeviationTable::HardTable ==> deviation.row < 17,
            deviation.table != DeviationTable::HardTable ==> deviation.row < 10,
        ensures
            final(self).wf(),
            final(self).spec_deviations(),
            final(self).spec_hilo() == old(self).spec_hilo(),
            final(self).spec_cell(deviation.table, deviation.row as int, deviation.dealer as int)
                == Some(spec_cell_of(deviation.action)),
            forall|t: DeviationTable, row: int, col: int|
                spec_in_table(t, row, col)
                    && !(t == deviation.table && row == deviation.row && col == deviation.dealer)
                    ==> #[trigger] final(self).spec_cell(t, row, col)
                    == old(self).spec_cell(t, row, col),
    {
        let (above, tc, a): (bool, crate::deviation::DevTc, char) = match deviation.action {
            DevOverride::AboveEqual(tc, a) => (true, tc, a),
            DevOverride::UnderEqual(tc, a) => (false, tc, a),
        };
        let thr: i8 = if tc.neg {
            -(tc.mag as i8)
        } else {
            tc.mag as i8
        };
        let cell = Some(DevCell { above, thr, action: a });
        let row = deviation.row as usize;
        let col = deviation.dealer as usize;
        match deviation.table {
            DeviationTable::HardTable => {
                self.dev_hard[row][col] = cell;
                proof {
                    assert(self.dev_hard@[row as int]@
                        =~= old(self).dev_hard@[row as int]@.update(col as int, cell));
                }
            },
            DeviationTable::SoftTable => {
                self.dev_soft[row][col] = cell;
                proof {
                    assert(self.dev_soft@[row as int]@
                        =~= old(self).dev_soft@[row as int]@.update(col as int, cell));
                }
            },
            DeviationTable::PairTable => {
                self.dev_pair[row][col] = cell;
                proof {
                    assert(self.dev_pair@[row as int]@
                        =~= old(self).dev_pair@[row as int]@.update(col as int, cell));
                }
            },
        }
        self.deviations = true;
    }

    /// Consults one deviation cell against the rounded true count, yielding
    /// the override action when its trigger condition holds.
    pub fn try_deviate(&self, dev: &Option<DevCell>, tc: i64) -> (r: Option<char>)
        ensures
            r == spec_try_deviate(*dev, tc as int),
    {
        match dev {
            None => None,
            Some(c) => {
                if (c.above && tc >= c.thr as i64) || (!c.above && tc <= c.thr as i64) {
                    Some(c.action)
                } else {
                    None
                }
            },
        }
    }
}

/// Whether the pair-table code lets the pair be split under the rules:
/// `V` always, `*` only with double-after-split, `?` only in a holecard
/// game, `@` only in a holecard game whose dealer stands on soft 17.
pub open spec fn spec_pair_split_ok(game: GameContext, rank: int, up: int) -> bool {
    let ch = spec_pair_action(rank, up);
    let ahc = game.rules.game_type == GameType::Ahc;
    ||| ch == 'V'
    ||| (ch == '*' && game.rules.das)
    ||| (ch == '?' && ahc)
    ||| (ch == '@' && ahc && game.rules.soft17 == Soft17::S17)
}

impl BasicStrategy {
    /// The base-table action code before deviations: a 21 always stands, a
    /// splittable pair yields `V`, otherwise the soft or hard table row for
    /// the hand's total is consulted.
    pub open spec fn spec_base_code(game: GameContext, dealer: Card, me: &Hand) -> char {
        let cards = me.spec_cards();
        if spec_value(cards) == 21 {
            '='
        } else if game.may_split && cards.len() == 2 && cards[0] == cards[1]
            && spec_pair_split_ok(game, cards[0].0 as int, dealer.0 as int) {
            'V'
        } else if spec_soft(cards) {
            spec_soft_action(spec_hard_sum(cards) - 1, dealer.0 as int)
        } else {
            spec_hard_action(spec_value(cards), dealer.0 as int)
        }
    }

    /// The action code after the deviation overlay: never applied on a 21;
    /// a pair consults its pair-table cell first, then the soft or hard
    /// cell of the hand's row; an untriggered overlay leaves the base code.
    pub open spec fn spec_deviated_code(&self, game: GameContext, dealer: Card, me: &Hand) -> char {
        let base = Self::spec_base_code(game, dealer, me);
        let cards = me.spec_cards();
        if !self.spec_deviations() || spec_value(cards) == 21 {
            base
        } else {
            let tc = spec_tc_rounded(game.true_count);
            let up = dealer.0 as int;
            let pair_hit = if game.may_split && cards.len() == 2 && cards[0] == cards[1] {
                spec_try_deviate(
                    self.spec_cell(DeviationTable::PairTable, 10 - cards[0].0 as int, up),
                    tc,
                )
            } else {
                None
            };
            match pair_hit {
                Some(a) => a,
                None => {
                    let cell = if spec_soft(cards) {
                        self.spec_cell(
                            DeviationTable::SoftTable,
                            10 - (spec_hard_sum(cards) - 1),
                            up,
                        )
                    } else {
                        self.spec_cell(DeviationTable::HardTable, 20 - spec_value(cards), up)
                    };
                    match spec_try_deviate(cell, tc) {
                        Some(a) => a,
                        None => base,
                    }
                },
            }
        }
    }

    /// Computes the base-table action code for a hand.
    fn base_code(&self, game: &GameContext, dealer: Card, me: &Hand) -> (c: char)
        requires
            dealer.valid(),
            me.wf(),
            me.spec_cards().len() >= 2,
            !spec_busted(me.spec_cards()),
        ensures
            c == Self::spec_base_code(*game, dealer, me),
    {
        proof {
            me.lemma_wf();
            lemma_hard_sum_bounds(me.spec_cards());
        }
        let v = me.value();
        if v == 21 {
            return '=';
        }
        if game.may_split && me.count() == 2 && me.card(0) == me.card(1) {
            let ch = pair_action(me.card(0).0, dealer.0);
            let ahc = game.rules.game_type == GameType::Ahc;
            if ch == 'V' || (ch == '*' && game.rules.das) || (ch == '?' && ahc)
                || (ch == '@' && ahc && game.rules.soft17 == Soft17::S17) {
                return 'V';
            }
        }
        if me.is_soft() {
            soft_action(v - 11, dealer.0)
        } else {
            hard_action(v, dealer.0)
        }
    }

    /// Applies the deviation overlay to a base action code.
    fn deviated_code(&self, game: &GameContext, dealer: Card, me: &Hand, base: char) -> (c: char)
        requires
            self.wf(),
            dealer.valid(),
            me.wf(),
            me.spec_cards().len() >= 2,
            !spec_busted(me.spec_cards()),
            self.spec_deviations(),
            base == Self::spec_base_code(*game, dealer, me),
        ensures
            c == self.spec_deviated_code(*game, dealer, me),
    {
        proof {
            me.lemma_wf();
            lemma_hard_sum_bounds(me.spec_cards());
        }
        let v = me.value();
        if v == 21 {
            return base;
        }
        let tc = game.true_count.rounded();
        let up = dealer.0 as usize;

        if game.may_split && me.count() == 2 && me.card(0) == me.card(1) {
            let rank = me.card(0).0 as usize;
            let cell = &self.dev_pair[10 - rank][up];
            if let Some(a) = self.try_deviate(cell, tc) {
                return a;
            }
        }

        let cell = if me.is_soft() {
            &self.dev_soft[10 - (v as usize - 11)][up]
        } else {
            proof {
                if !spec_has_ace(me.spec_cards()) {
                    crate::hand::lemma_hard_sum_no_ace(me.spec_cards());
                }
            }
            &self.dev_hard[20 - v as usize][up]
        };
        match self.try_deviate(cell, tc) {
            Some(a) => a,
            None => base,
        }
    }
}

/// The conditional codes resolved against the rules, then the double codes
/// resolved against whether doubling is currently allowed.
pub open spec fn spec_resolve(code: char, game: GameContext) -> char {
    let ahc = game.rules.game_type == GameType::Ahc;
    let h17 = game.rules.soft17 == Soft17::H17;
    let c1 = if code == '?' {
        if ahc { 'D' } else { '+' }
    } else if code == '&' {
        if ahc && h17 { 'D' } else { '+' }
    } else if code == 'h' {
        if h17 { 'd' } else { '=' }
    } else {
        code
    };
    if c1 == 'D' && !game.may_double {
        '+'
    } else if c1 == 'd' && !game.may_double {
        '='
    } else {
        c1
    }
}

/// The play decision a resolved action code stands for; any other code is a
/// malformed-table error.
pub open spec fn spec_decision_of(code: char) -> Result<Decision, StrategyError> {
    if code == '+' || code == 'S' || code == 'E' || code == 'U' {
        Ok(Decision::Hit)
    } else if code == '=' || code == 's' || code == 'e' || code == 'u' {
        Ok(Decision::Stand)
    } else if code == 'D' || code == 'd' {
        Ok(Decision::Double)
    } else if code == 'V' {
        Ok(Decision::Split)
    } else {
        Err(StrategyError::UnknownAction(code))
    }
}

impl Strategy for BasicStrategy {
    closed spec fn wf(&self) -> bool {
        &&& spec_table_wf(self.dev_hard@, 17)
        &&& spec_table_wf(self.dev_soft@, 10)
        &&& spec_table_wf(self.dev_pair@, 10)
    }

    open spec fn spec_turn(&self, game: GameContext, dealer: Card, me: &Hand) -> Result<
        Decision,
        StrategyError,
    > {
        if game.holecard is Some {
            Err(StrategyError::Holecarding)
        } else {
            let code = if self.spec_deviations() {
                self.spec_deviated_code(game, dealer, me)
            } else {
                Self::spec_base_code(game, dealer, me)
            };
            spec_decision_of(spec_resolve(code, game))
        }
    }

    open spec fn spec_surrender(&self, game: GameContext, dealer: Card, me: &Hand, is_early: bool) -> bool {
        if game.holecard is Some || spec_soft(me.spec_cards()) {
            false
        } else {
            let code = Self::spec_base_code(game, dealer, me);
            if code == 'S' || code == 's' {
                true
            } else if code == 'E' || code == 'e' {
                is_early
            } else if code == 'U' || code == 'u' {
                is_early || game.rules.soft17 == Soft17::S17
            } else {
                false
            }
        }
    }

    open spec fn spec_insurance(&self, game: GameContext, me: &Hand) -> bool {
        match game.holecard {
            Some(hc) => hc == Card(10),
            None => self.spec_hilo() && spec_tc_at_least(game.true_count, 3),
        }
    }

    fn player_turn(&self, game: &GameContext, dealer: Card, me: &Hand) -> (r: Result<
        Decision,
        StrategyError,
    >) {
        if game.holecard.is_some() {
            return Err(StrategyError::Holecarding);
        }
        let mut code = self.base_code(game, dealer, me);
        if self.deviations {
            code = self.deviated_code(game, dealer, me, code);
        }

        let ahc = game.rules.game_type == GameType::Ahc;
        let h17 = game.rules.soft17 == Soft17::H17;
        if code == '?' {
            code = if ahc { 'D' } else { '+' };
        } else if code == '&' {
            code = if ahc && h17 { 'D' } else { '+' };
        } else if code == 'h' {
            code = if h17 { 'd' } else { '=' };
        }
        if code == 'D' && !game.may_double {
            code = '+';
        } else if code == 'd' && !game.may_double {
            code = '=';
        }

        if code == '+' || code == 'S' || code == 'E' || code == 'U' {
            Ok(Decision::Hit)
        } else if code == '=' || code == 's' || code == 'e' || code == 'u' {
            Ok(Decision::Stand)
        } else if code == 'D' || code == 'd' {
            Ok(Decision::Double)
        } else if code == 'V' {
            Ok(Decision::Split)
        } else {
            Err(StrategyError::UnknownAction(code))
        }
    }

    fn surrender(&self, game: &GameContext, dealer: Card, me: &Hand, is_early: bool) -> (r: bool) {
        if game.holecard.is_some() {
            return false;
        }
        if me.is_soft() {
            return false;
        }
        let code = self.base_code(game, dealer, me);
        match code {
            'S' | 's' => true,
            'E' | 'e' => is_early,
            'U' | 'u' => is_early || game.rules.soft17 == Soft17::S17,
            _ => false,
        }
    }

    fn take_insurance(&self, game: &GameContext, me: &Hand) -> (r: bool) {
        match game.holecard {
            Some(hc) => hc == Card(10),
            None => {
                if !self.hilo {
                    false
                } else {
                    game.true_count.at_least(3)
                }
            },
        }
    }
}

/// Whether a (table, row, column) triple is inside its table: seventeen
/// hard rows or ten soft/pair rows, and dealer columns 1 to 10.
pub open spec fn spec_in_table(t: DeviationTable, row: int, col: int) -> bool {
    0 <= col < 11 && 0 <= row < (if t == DeviationTable::HardTable { 17int } else { 10int })
}

/// The deviation cell a parsed override record installs.
pub open spec fn spec_cell_of(ov: DevOverride) -> DevCell {
    let above = ov matches DevOverride::AboveEqual(_, _);
    let thr = if ov.spec_tc().neg {
        -(ov.spec_tc().mag as int)
    } else {
        ov.spec_tc().mag as int
    };
    DevCell { above, thr: thr as i8, action: ov.spec_action() }
}

/// Builds one deviation table of the given number of rows, all cells empty.
fn make_table(rows: usize) -> (t: Vec<Vec<Option<DevCell>>>)
    ensures
        spec_table_wf(t@, rows as int),
        forall|r: int, c: int| 0 <= r < rows && 0 <= c < 11
            ==> (#[trigger] t@[r]@[c]) is None,
{
    let mut t: Vec<Vec<Option<DevCell>>> = Vec::new();
    let mut r: usize = 0;
    while r < rows
        invariant
            t@.len() == r <= rows,
            forall|i: int| 0 <= i < r ==> (#[trigger] t@[i])@.len() == 11,
            forall|i: int, c: int| 0 <= i < r && 0 <= c < 11
                ==> (#[trigger] t@[i]@[c]) is None,
        decreases rows - r,
    {
        let mut row: Vec<Option<DevCell>> = Vec::new();
        let mut c: usize = 0;
        while c < 11
            invariant
                row@.len() == c <= 11,
                forall|j: int| 0 <= j < c ==> (#[trigger] row@[j]) is None,
            decreases 11 - c,
        {
            row.push(None);
            c = c + 1;
        }
        t.push(row);
        r = r + 1;
    }
    t
}

} // verus!
