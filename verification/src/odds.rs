//! Payout ratios, and the table that holds one for every betting area and
//! every total of the dice.
//!
//! The rules decide who wins; the table decides how much. A rule variant
//! that pays differently swaps the table and leaves the rules alone.

use crate::position::{index_of, Position};
use crate::rules::Roll;
use vstd::prelude::*;

verus! {

/// What a stake of `stake` wins at `num` to `den`, rounded down.
pub open spec fn winnings_at(stake: int, num: int, den: int) -> int {
    stake * num / den
}

/// A payout ratio `num` to `den`, such as 3 to 2. `den` is never zero.
#[derive(Clone, Copy, Debug, PartialEq, Eq)]
pub struct Ratio {
    num: u32,
    den: u32,
}

/// What a [`Ratio`] is, as a mathematical value.
pub struct Odds {
    pub num: u32,
    pub den: u32,
}

impl View for Ratio {
    type V = Odds;

    closed spec fn view(&self) -> Odds {
        Odds { num: self.num, den: self.den }
    }
}

impl Ratio {
    #[verifier::type_invariant]
    spec fn den_is_positive(&self) -> bool {
        self.den > 0
    }

    /// The ratio `num` to `den`, or nothing where `den` is zero.
    pub fn new(num: u32, den: u32) -> (made: Option<Ratio>)
        ensures
            den == 0 ==> made is None,
            den > 0 ==> made is Some && made->0@ == (Odds { num, den }),
    {
        if den == 0 {
            None
        } else {
            Some(Ratio { num, den })
        }
    }

    /// One to one.
    pub fn even() -> (ratio: Ratio)
        ensures
            ratio@ == (Odds { num: 1, den: 1 }),
    {
        Ratio { num: 1, den: 1 }
    }

    /// `num` to one.
    pub fn to_one(num: u32) -> (ratio: Ratio)
        ensures
            ratio@ == (Odds { num, den: 1 }),
    {
        Ratio { num, den: 1 }
    }

    /// What is paid for every `den` staked.
    pub fn num(&self) -> (num: u32)
        ensures
            num == self@.num,
    {
        self.num
    }

    /// What has to be staked to be paid `num`.
    pub fn den(&self) -> (den: u32)
        ensures
            den == self@.den,
            den > 0,
    {
        proof {
            use_type_invariant(self);
        }
        self.den
    }

    /// What a stake of `stake` wins at this ratio, rounded down.
    pub fn winnings(&self, stake: u32) -> (won: u64)
        ensures
            won == winnings_at(stake as int, self@.num as int, self@.den as int),
            won + stake <= u64::MAX,
    {
        proof {
            use_type_invariant(self);
            assert(0 <= stake * self.num <= 0xffff_ffff * 0xffff_ffff) by (nonlinear_arith)
                requires
                    0 <= stake <= 0xffff_ffff,
                    0 <= self.num <= 0xffff_ffff,
            ;
            assert((stake * self.num) / (self.den as int) <= stake * self.num) by (nonlinear_arith)
                requires
                    0 <= stake * self.num,
                    self.den >= 1,
            ;
            assert(0xffff_ffff * 0xffff_ffff + 0xffff_ffff <= u64::MAX);
        }
        (stake as u64 * self.num as u64) / self.den as u64
    }
}

/// How many totals two dice can show: two to twelve.
pub const TOTALS: usize = 11;

/// The payout ratios of a table: one for every betting area and every total
/// of two dice.
#[derive(Clone, Copy, Debug, PartialEq, Eq)]
pub struct PayTable {
    ratios: [Ratio; 242],
}

/// What the usual crapless layout pays.
///
/// The pass line and the come area pay even money. The numbers pay 11 to 2
/// on two and twelve, 11 to 4 on three and eleven, 9 to 5 on four and ten,
/// 7 to 5 on five and nine, 7 to 6 on six and eight. The field pays even
/// money, and 2 to 1 on two and twelve. The hardways pay 7 to 1 on four and
/// ten, 9 to 1 on six and eight. The one-roll propositions pay 4 to 1 on
/// seven, 15 to 1 on three and eleven, 30 to 1 on two and twelve.
pub open spec fn standard_odds(position: Position, total: int) -> Odds {
    match position {
        Position::PassLine | Position::COME => Odds { num: 1, den: 1 },
        Position::Two | Position::Twelve => Odds { num: 11, den: 2 },
        Position::Three | Position::Eleven => Odds { num: 11, den: 4 },
        Position::Four | Position::Ten => Odds { num: 9, den: 5 },
        Position::Five | Position::Nine => Odds { num: 7, den: 5 },
        Position::Six | Position::Eight => Odds { num: 7, den: 6 },
        Position::FIELD => {
            if total == 2 || total == 12 {
                Odds { num: 2, den: 1 }
            } else {
                Odds { num: 1, den: 1 }
            }
        },
        Position::HardFour | Position::HardTen => Odds { num: 7, den: 1 },
        Position::HardSix | Position::HardEight => Odds { num: 9, den: 1 },
        Position::OneRollSeven => Odds { num: 4, den: 1 },
        Position::OneRollThree | Position::OneRollEleven => Odds { num: 15, den: 1 },
        Position::OneRollTwo | Position::OneRollTwelve => Odds { num: 30, den: 1 },
    }
}

impl PayTable {
    /// What the table pays on `position` when the dice show `total`, for
    /// totals from two to twelve.
    pub closed spec fn odds_at(&self, position: Position, total: int) -> Odds {
        self.ratios[index_of(position) * 11 + (total - 2)]@
    }

    /// A table that pays `ratio` on everything.
    pub fn uniform(ratio: Ratio) -> (table: PayTable)
        ensures
            forall|position: Position, total: int|
                2 <= total <= 12 ==> #[trigger] table.odds_at(position, total) == ratio@,
    {
        PayTable { ratios: [ratio;242] }
    }

    /// What the table pays on `position` for `roll`.
    pub fn ratio(&self, position: Position, roll: Roll) -> (ratio: Ratio)
        ensures
            ratio@ == self.odds_at(position, roll@.total()),
    {
        let total = roll.total();
        self.ratios[position.index() * TOTALS + (total - 2) as usize]
    }

    /// Makes the table pay `ratio` on `position` when the dice show `total`.
    /// A total that two dice cannot show changes nothing and returns `false`.
    pub fn set(&mut self, position: Position, total: u8, ratio: Ratio) -> (changed: bool)
        ensures
            changed <==> 2 <= total <= 12,
            forall|p: Position, t: int|
                2 <= t <= 12 ==> #[trigger] final(self).odds_at(p, t) == if changed && p == position
                    && t == total {
                    ratio@
                } else {
                    old(self).odds_at(p, t)
                },
    {
        if total < 2 || total > 12 {
            return false;
        }
        let slot = position.index() * TOTALS + (total - 2) as usize;
        self.ratios[slot] = ratio;
        proof {
            crate::position::lemma_layout_is_one_to_one();
        }
        true
    }

    /// Makes the table pay `ratio` on `position` whatever the dice show.
    pub fn set_all(&mut self, position: Position, ratio: Ratio)
        ensures
            forall|p: Position, t: int|
                2 <= t <= 12 ==> #[trigger] final(self).odds_at(p, t) == if p == position {
                    ratio@
                } else {
                    old(self).odds_at(p, t)
                },
    {
        let mut total: u8 = 2;
        while total <= 12
            invariant
                2 <= total <= 13,
                forall|p: Position, t: int|
                    2 <= t <= 12 ==> #[trigger] self.odds_at(p, t) == if p == position && t
                        < total {
                        ratio@
                    } else {
                        old(self).odds_at(p, t)
                    },
            decreases 13 - total,
        {
            self.set(position, total, ratio);
            total += 1;
        }
    }

    /// The usual crapless table: see [`standard_odds`].
    pub fn standard() -> (table: PayTable)
        ensures
            forall|position: Position, total: int|
                2 <= total <= 12 ==> #[trigger] table.odds_at(position, total) == standard_odds(
                    position,
                    total,
                ),
    {
        let mut table = PayTable::uniform(Ratio::even());
        let eleven_to_two = Ratio { num: 11, den: 2 };
        let eleven_to_four = Ratio { num: 11, den: 4 };
        let nine_to_five = Ratio { num: 9, den: 5 };
        let seven_to_five = Ratio { num: 7, den: 5 };
        let seven_to_six = Ratio { num: 7, den: 6 };
        table.set_all(Position::Two, eleven_to_two);
        table.set_all(Position::Twelve, eleven_to_two);
        table.set_all(Position::Three, eleven_to_four);
        table.set_all(Position::Eleven, eleven_to_four);
        table.set_all(Position::Four, nine_to_five);
        table.set_all(Position::Ten, nine_to_five);
        table.set_all(Position::Five, seven_to_five);
        table.set_all(Position::Nine, seven_to_five);
        table.set_all(Position::Six, seven_to_six);
        table.set_all(Position::Eight, seven_to_six);
        table.set(Position::FIELD, 2, Ratio::to_one(2));
        table.set(Position::FIELD, 12, Ratio::to_one(2));
        table.set_all(Position::HardFour, Ratio::to_one(7));
        table.set_all(Position::HardTen, Ratio::to_one(7));
        table.set_all(Position::HardSix, Ratio::to_one(9));
        table.set_all(Position::HardEight, Ratio::to_one(9));
        table.set_all(Position::OneRollSeven, Ratio::to_one(4));
        table.set_all(Position::OneRollThree, Ratio::to_one(15));
        table.set_all(Position::OneRollEleven, Ratio::to_one(15));
        table.set_all(Position::OneRollTwo, Ratio::to_one(30));
        table.set_all(Position::OneRollTwelve, Ratio::to_one(30));
        table
    }
}

} // verus!
