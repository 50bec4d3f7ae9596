//! The rules of crapless craps: what a roll of the dice decides for each
//! betting area, and where it takes the table next.
//!
//! Unlike craps proper, no come-out roll loses the pass line: two, three,
//! eleven and twelve become the point like any other number.

use crate::bet::Outcome;
use crate::position::{class_of, index_of, position_at, target_of, Position, WagerClass, POSITIONS};
use vstd::prelude::*;

verus! {

/// Whether a point is established.
#[derive(Clone, Copy, Debug, PartialEq, Eq, Structural)]
pub enum TablePhase {
    /// No point: the next roll is a come-out roll.
    ComeOut,
    /// The point is on, at the number held.
    PointOn(u8),
}

/// A number that can be the point: any total of two dice but seven.
pub open spec fn is_point(total: int) -> bool {
    2 <= total <= 12 && total != 7
}

impl TablePhase {
    /// A phase is well formed where its point, if it has one, can be a point.
    pub open spec fn wf(self) -> bool {
        match self {
            TablePhase::ComeOut => true,
            TablePhase::PointOn(point) => is_point(point as int),
        }
    }

    /// The point, if one is on.
    pub fn point(&self) -> (point: Option<u8>)
        ensures
            point == match *self {
                TablePhase::ComeOut => None,
                TablePhase::PointOn(point) => Some(point),
            },
    {
        match self {
            TablePhase::ComeOut => None,
            TablePhase::PointOn(point) => Some(*point),
        }
    }

    /// Whether the next roll is a come-out roll.
    pub fn is_come_out(&self) -> (yes: bool)
        ensures
            yes <==> self is ComeOut,
    {
        match self {
            TablePhase::ComeOut => true,
            TablePhase::PointOn(_) => false,
        }
    }
}

/// What a [`Roll`] is, as a mathematical value.
pub struct Dice {
    pub first: int,
    pub second: int,
}

impl Dice {
    /// Each die shows one to six.
    pub open spec fn wf(self) -> bool {
        1 <= self.first <= 6 && 1 <= self.second <= 6
    }

    /// The two dice added up.
    pub open spec fn total(self) -> int {
        self.first + self.second
    }

    /// Whether both dice show the same face.
    pub open spec fn is_pair(self) -> bool {
        self.first == self.second
    }
}

/// Two dice as they fell.
#[derive(Clone, Copy, Debug, PartialEq, Eq)]
pub struct Roll {
    first: u8,
    second: u8,
}

impl View for Roll {
    type V = Dice;

    closed spec fn view(&self) -> Dice {
        Dice { first: self.first as int, second: self.second as int }
    }
}

impl Roll {
    #[verifier::type_invariant]
    spec fn faces_are_real(&self) -> bool {
        1 <= self.first <= 6 && 1 <= self.second <= 6
    }

    /// The roll of two dice showing `first` and `second`, or nothing where
    /// either is not a face of a die.
    pub fn new(first: u8, second: u8) -> (made: Option<Roll>)
        ensures
            match made {
                Some(roll) => roll@ == (Dice { first: first as int, second: second as int })
                    && roll@.wf(),
                None => !(Dice { first: first as int, second: second as int }).wf(),
            },
    {
        if 1 <= first && first <= 6 && 1 <= second && second <= 6 {
            Some(Roll { first, second })
        } else {
            None
        }
    }

    /// What the first die shows.
    pub fn first(&self) -> (first: u8)
        ensures
            first == self@.first,
            self@.wf(),
    {
        proof {
            use_type_invariant(self);
        }
        self.first
    }

    /// What the second die shows.
    pub fn second(&self) -> (second: u8)
        ensures
            second == self@.second,
            self@.wf(),
    {
        proof {
            use_type_invariant(self);
        }
        self.second
    }

    /// The two dice added up: two to twelve.
    pub fn total(&self) -> (total: u8)
        ensures
            total == self@.total(),
            2 <= total <= 12,
            self@.wf(),
    {
        proof {
            use_type_invariant(self);
        }
        self.first + self.second
    }

    /// Whether both dice show the same face.
    pub fn is_pair(&self) -> (pair: bool)
        ensures
            pair == self@.is_pair(),
    {
        self.first == self.second
    }
}

/// Where a roll takes the table. A come-out seven leaves no point; any
/// other come-out total becomes the point. With the point on, the point or
/// a seven ends the cycle; any other total changes nothing.
pub open spec fn next_phase(phase: TablePhase, total: int) -> TablePhase {
    match phase {
        TablePhase::ComeOut => {
            if is_point(total) {
                TablePhase::PointOn(total as u8)
            } else {
                TablePhase::ComeOut
            }
        },
        TablePhase::PointOn(point) => {
            if total == point || total == 7 {
                TablePhase::ComeOut
            } else {
                phase
            }
        },
    }
}

/// What a roll decides for a wager that goes with the point: the pass line,
/// and the come area behind it. A come-out seven wins and any other
/// come-out total carries; with the point on, the point wins, a seven loses
/// and any other total carries.
pub open spec fn with_the_point(phase: TablePhase, total: int) -> Outcome {
    match phase {
        TablePhase::ComeOut => {
            if total == 7 {
                Outcome::Won
            } else {
                Outcome::Carried
            }
        },
        TablePhase::PointOn(point) => {
            if total == point {
                Outcome::Won
            } else if total == 7 {
                Outcome::Lost
            } else {
                Outcome::Carried
            }
        },
    }
}

/// The totals that the field wins on.
pub open spec fn field_wins(total: int) -> bool {
    total == 2 || total == 3 || total == 4 || total == 9 || total == 10 || total == 11
        || total == 12
}

/// What a roll decides for the wagers on one betting area.
///
/// - The pass line and the come area go with the point.
/// - A number wins on its own total, loses on a seven and carries otherwise,
///   in either phase.
/// - The field and the one-roll propositions win or lose on every roll.
/// - A hardway wins on its total thrown as a pair, loses on a seven or on
///   its total thrown otherwise, and carries on anything else.
pub open spec fn outcome_of(position: Position, phase: TablePhase, dice: Dice) -> Outcome {
    let total = dice.total();
    match class_of(position) {
        WagerClass::Line => with_the_point(phase, total),
        WagerClass::Come => match target_of(position) {
            None => with_the_point(phase, total),
            Some(number) => {
                if total == number {
                    Outcome::Won
                } else if total == 7 {
                    Outcome::Lost
                } else {
                    Outcome::Carried
                }
            },
        },
        WagerClass::Field => {
            if field_wins(total) {
                Outcome::Won
            } else {
                Outcome::Lost
            }
        },
        WagerClass::OneRoll => {
            if target_of(position) == Some(total) {
                Outcome::Won
            } else {
                Outcome::Lost
            }
        },
        WagerClass::Hardway => {
            if target_of(position) == Some(total) {
                if dice.is_pair() {
                    Outcome::Won
                } else {
                    Outcome::Lost
                }
            } else if total == 7 {
                Outcome::Lost
            } else {
                Outcome::Carried
            }
        },
    }
}

/// Whether a betting area takes new wagers in a phase: the pass line only
/// before the point is on, the come area and the numbers only while it is
/// on, the rest at any time.
pub open spec fn takes_wagers(position: Position, phase: TablePhase) -> bool {
    match class_of(position) {
        WagerClass::Line => phase is ComeOut,
        WagerClass::Come => phase is PointOn,
        WagerClass::Field | WagerClass::OneRoll | WagerClass::Hardway => true,
    }
}

/// Whether `position` takes new wagers in `phase`.
pub fn is_open(position: Position, phase: TablePhase) -> (open: bool)
    ensures
        open == takes_wagers(position, phase),
{
    match position.class() {
        WagerClass::Line => phase.is_come_out(),
        WagerClass::Come => !phase.is_come_out(),
        WagerClass::Field | WagerClass::OneRoll | WagerClass::Hardway => true,
    }
}

/// The phase after `roll`.
pub fn advance(phase: TablePhase, roll: Roll) -> (next: TablePhase)
    ensures
        next == next_phase(phase, roll@.total()),
        phase.wf() ==> next.wf(),
{
    let total = roll.total();
    match phase {
        TablePhase::ComeOut => {
            if total == 7 {
                TablePhase::ComeOut
            } else {
                TablePhase::PointOn(total)
            }
        },
        TablePhase::PointOn(point) => {
            if total == point || total == 7 {
                TablePhase::ComeOut
            } else {
                phase
            }
        },
    }
}

/// What a roll decides for a wager that goes with the point.
fn decide_with_the_point(phase: TablePhase, total: u8) -> (outcome: Outcome)
    ensures
        outcome == with_the_point(phase, total as int),
{
    match phase {
        TablePhase::ComeOut => {
            if total == 7 {
                Outcome::Won
            } else {
                Outcome::Carried
            }
        },
        TablePhase::PointOn(point) => {
            if total == point {
                Outcome::Won
            } else if total == 7 {
                Outcome::Lost
            } else {
                Outcome::Carried
            }
        },
    }
}

/// What `roll` decides for the wagers on `position`.
pub fn decide(position: Position, phase: TablePhase, roll: Roll) -> (outcome: Outcome)
    ensures
        outcome == outcome_of(position, phase, roll@),
        outcome != Outcome::Pushed,
{
    let total = roll.total();
    let target = position.target();
    match position.class() {
        WagerClass::Line => decide_with_the_point(phase, total),
        WagerClass::Come => match target {
            None => decide_with_the_point(phase, total),
            Some(number) => {
                if total == number {
                    Outcome::Won
                } else if total == 7 {
                    Outcome::Lost
                } else {
                    Outcome::Carried
                }
            },
        },
        WagerClass::Field => {
            if total == 2 || total == 3 || total == 4 || total == 9 || total == 10 || total == 11
                || total == 12 {
                Outcome::Won
            } else {
                Outcome::Lost
            }
        },
        WagerClass::OneRoll => match target {
            Some(number) if number == total => Outcome::Won,
            _ => Outcome::Lost,
        },
        WagerClass::Hardway => match target {
            Some(number) if number == total => {
                if roll.is_pair() {
                    Outcome::Won
                } else {
                    Outcome::Lost
                }
            },
            _ => {
                if total == 7 {
                    Outcome::Lost
                } else {
                    Outcome::Carried
                }
            },
        },
    }
}

/// What one roll resolves to: the phase it leaves, and a decision for every
/// betting area.
#[derive(Clone, Copy, Debug, PartialEq, Eq)]
pub struct Resolution {
    next: TablePhase,
    decisions: [Outcome; 22],
}

impl Resolution {
    /// The phase that the roll leaves.
    pub closed spec fn phase(&self) -> TablePhase {
        self.next
    }

    /// The decision for the wagers on `position`.
    pub closed spec fn decision(&self, position: Position) -> Outcome {
        self.decisions[index_of(position)]
    }

    /// The phase that the roll leaves.
    pub fn next_phase(&self) -> (next: TablePhase)
        ensures
            next == self.phase(),
    {
        self.next
    }

    /// The decision for the wagers on `position`.
    pub fn outcome(&self, position: Position) -> (outcome: Outcome)
        ensures
            outcome == self.decision(position),
    {
        self.decisions[position.index()]
    }
}

/// Resolves one roll: the next phase, and for every betting area what the
/// roll decides for the wagers on it.
pub fn resolve(phase: TablePhase, roll: Roll) -> (resolution: Resolution)
    ensures
        resolution.phase() == next_phase(phase, roll@.total()),
        forall|position: Position|
            #[trigger] resolution.decision(position) == outcome_of(position, phase, roll@),
        phase.wf() ==> resolution.phase().wf(),
{
    let mut decisions = [Outcome::Carried;22];
    let mut index: usize = 0;
    while index < POSITIONS
        invariant
            index <= POSITIONS,
            forall|i: int|
                0 <= i < index ==> #[trigger] decisions[i] == outcome_of(
                    position_at(i),
                    phase,
                    roll@,
                ),
        decreases POSITIONS - index,
    {
        let position = Position::from_index(index).unwrap();
        decisions[index] = decide(position, phase, roll);
        index += 1;
    }
    proof {
        crate::position::lemma_layout_is_one_to_one();
    }
    Resolution { next: advance(phase, roll), decisions }
}

/// The field and the one-roll propositions are decided by every roll: they
/// never carry.
pub proof fn lemma_one_roll_wagers_never_carry(position: Position, phase: TablePhase, dice: Dice)
    requires
        class_of(position) is Field || class_of(position) is OneRoll,
    ensures
        outcome_of(position, phase, dice) is Won || outcome_of(position, phase, dice) is Lost,
{
}

/// No come-out roll loses the pass line.
pub proof fn lemma_come_out_never_loses_the_line(dice: Dice)
    ensures
        outcome_of(Position::PassLine, TablePhase::ComeOut, dice) != Outcome::Lost,
{
}

/// A come-out seven wins the pass line and leaves the table without a
/// point.
pub proof fn lemma_come_out_seven(dice: Dice)
    requires
        dice.total() == 7,
    ensures
        outcome_of(Position::PassLine, TablePhase::ComeOut, dice) == Outcome::Won,
        next_phase(TablePhase::ComeOut, dice.total()) == TablePhase::ComeOut,
{
}

/// Any other come-out total becomes the point, and the pass line carries.
pub proof fn lemma_come_out_point(dice: Dice)
    requires
        dice.wf(),
        dice.total() != 7,
    ensures
        outcome_of(Position::PassLine, TablePhase::ComeOut, dice) == Outcome::Carried,
        next_phase(TablePhase::ComeOut, dice.total()) == TablePhase::PointOn(dice.total() as u8),
{
}

/// With the point on, the point wins the pass line and the come area, and
/// ends the cycle.
pub proof fn lemma_point_made(point: u8, dice: Dice)
    requires
        is_point(point as int),
        dice.total() == point,
    ensures
        outcome_of(Position::PassLine, TablePhase::PointOn(point), dice) == Outcome::Won,
        outcome_of(Position::COME, TablePhase::PointOn(point), dice) == Outcome::Won,
        next_phase(TablePhase::PointOn(point), dice.total()) == TablePhase::ComeOut,
{
}

/// With the point on, a total that is neither the point nor seven carries
/// the pass line and the come area and leaves the point on.
pub proof fn lemma_point_stands(point: u8, dice: Dice)
    requires
        is_point(point as int),
        dice.total() != point,
        dice.total() != 7,
    ensures
        outcome_of(Position::PassLine, TablePhase::PointOn(point), dice) == Outcome::Carried,
        outcome_of(Position::COME, TablePhase::PointOn(point), dice) == Outcome::Carried,
        next_phase(TablePhase::PointOn(point), dice.total()) == TablePhase::PointOn(point),
{
}

/// A seven with the point on loses the pass line, the come area and every
/// number, and ends the cycle, whatever it decides for the rest.
pub proof fn lemma_seven_out(position: Position, point: u8, dice: Dice)
    requires
        is_point(point as int),
        dice.total() == 7,
        class_of(position) is Line || class_of(position) is Come,
    ensures
        outcome_of(position, TablePhase::PointOn(point), dice) == Outcome::Lost,
        next_phase(TablePhase::PointOn(point), dice.total()) == TablePhase::ComeOut,
{
}

/// The rules never push a wager.
pub proof fn lemma_rules_never_push(position: Position, phase: TablePhase, dice: Dice)
    ensures
        outcome_of(position, phase, dice) != Outcome::Pushed,
{
}

/// A point is on exactly while the phase says so, and it is a number that
/// can be one: a well-formed phase stays well formed through any roll.
pub proof fn lemma_phase_stays_well_formed(phase: TablePhase, dice: Dice)
    requires
        phase.wf(),
        dice.wf(),
    ensures
        next_phase(phase, dice.total()).wf(),
{
}

} // verus!
