//! The betting areas of the layout.

use vstd::prelude::*;

verus! {

/// How many betting areas the layout has.
pub const POSITIONS: usize = 22;

/// A betting area.
#[allow(non_camel_case_types)]
#[derive(Clone, Copy, Debug, PartialEq, Eq, Hash, Structural)]
pub enum Position {
    Two,
    Three,
    Four,
    Five,
    Six,
    Eight,
    Nine,
    Ten,
    Eleven,
    Twelve,
    COME,
    FIELD,
    PassLine,
    HardFour,
    HardSix,
    HardEight,
    HardTen,
    OneRollSeven,
    OneRollTwo,
    OneRollThree,
    OneRollEleven,
    OneRollTwelve,
}

/// The family a betting area belongs to; the rules speak of families.
#[derive(Clone, Copy, Debug, PartialEq, Eq, Structural)]
pub enum WagerClass {
    /// The pass line.
    Line,
    /// The field: decided afresh by every roll.
    Field,
    /// A proposition on the next roll alone.
    OneRoll,
    /// A total made as a pair before a seven or the same total made otherwise.
    Hardway,
    /// The come area and the numbers that come wagers ride on.
    Come,
}

/// The place of a betting area in the layout, from 0.
pub open spec fn index_of(position: Position) -> int {
    match position {
        Position::Two => 0,
        Position::Three => 1,
        Position::Four => 2,
        Position::Five => 3,
        Position::Six => 4,
        Position::Eight => 5,
        Position::Nine => 6,
        Position::Ten => 7,
        Position::Eleven => 8,
        Position::Twelve => 9,
        Position::COME => 10,
        Position::FIELD => 11,
        Position::PassLine => 12,
        Position::HardFour => 13,
        Position::HardSix => 14,
        Position::HardEight => 15,
        Position::HardTen => 16,
        Position::OneRollSeven => 17,
        Position::OneRollTwo => 18,
        Position::OneRollThree => 19,
        Position::OneRollEleven => 20,
        Position::OneRollTwelve => 21,
    }
}

/// The betting area at a place in the layout. Places past the last stand
/// for the last area.
pub open spec fn position_at(index: int) -> Position {
    if index <= 0 {
        Position::Two
    } else if index == 1 {
        Position::Three
    } else if index == 2 {
        Position::Four
    } else if index == 3 {
        Position::Five
    } else if index == 4 {
        Position::Six
    } else if index == 5 {
        Position::Eight
    } else if index == 6 {
        Position::Nine
    } else if index == 7 {
        Position::Ten
    } else if index == 8 {
        Position::Eleven
    } else if index == 9 {
        Position::Twelve
    } else if index == 10 {
        Position::COME
    } else if index == 11 {
        Position::FIELD
    } else if index == 12 {
        Position::PassLine
    } else if index == 13 {
        Position::HardFour
    } else if index == 14 {
        Position::HardSix
    } else if index == 15 {
        Position::HardEight
    } else if index == 16 {
        Position::HardTen
    } else if index == 17 {
        Position::OneRollSeven
    } else if index == 18 {
        Position::OneRollTwo
    } else if index == 19 {
        Position::OneRollThree
    } else if index == 20 {
        Position::OneRollEleven
    } else {
        Position::OneRollTwelve
    }
}

/// The family of a betting area.
pub open spec fn class_of(position: Position) -> WagerClass {
    match position {
        Position::PassLine => WagerClass::Line,
        Position::FIELD => WagerClass::Field,
        Position::OneRollSeven
        | Position::OneRollTwo
        | Position::OneRollThree
        | Position::OneRollEleven
        | Position::OneRollTwelve => WagerClass::OneRoll,
        Position::HardFour
        | Position::HardSix
        | Position::HardEight
        | Position::HardTen => WagerClass::Hardway,
        Position::COME
        | Position::Two
        | Position::Three
        | Position::Four
        | Position::Five
        | Position::Six
        | Position::Eight
        | Position::Nine
        | Position::Ten
        | Position::Eleven
        | Position::Twelve => WagerClass::Come,
    }
}

/// The total that a betting area is named after, where it is named after
/// one: the number itself, the total of a hardway, the total of a one-roll
/// proposition. The come area, the field and the pass line have none.
pub open spec fn target_of(position: Position) -> Option<int> {
    match position {
        Position::Two | Position::OneRollTwo => Some(2),
        Position::Three | Position::OneRollThree => Some(3),
        Position::Four | Position::HardFour => Some(4),
        Position::Five => Some(5),
        Position::Six | Position::HardSix => Some(6),
        Position::OneRollSeven => Some(7),
        Position::Eight | Position::HardEight => Some(8),
        Position::Nine => Some(9),
        Position::Ten | Position::HardTen => Some(10),
        Position::Eleven | Position::OneRollEleven => Some(11),
        Position::Twelve | Position::OneRollTwelve => Some(12),
        Position::COME | Position::FIELD | Position::PassLine => None,
    }
}

/// Every betting area has a place of its own in the layout, and every place
/// a betting area.
pub proof fn lemma_layout_is_one_to_one()
    ensures
        forall|p: Position|
            0 <= #[trigger] index_of(p) < POSITIONS && position_at(index_of(p)) == p,
        forall|i: int| 0 <= i < POSITIONS ==> index_of(#[trigger] position_at(i)) == i,
{
}

impl Position {
    /// The place of this betting area in the layout, from 0.
    pub fn index(&self) -> (index: usize)
        ensures
            index == index_of(*self),
            index < POSITIONS,
            position_at(index as int) == *self,
    {
        match self {
            Position::Two => 0,
            Position::Three => 1,
            Position::Four => 2,
            Position::Five => 3,
            Position::Six => 4,
            Position::Eight => 5,
            Position::Nine => 6,
            Position::Ten => 7,
            Position::Eleven => 8,
            Position::Twelve => 9,
            Position::COME => 10,
            Position::FIELD => 11,
            Position::PassLine => 12,
            Position::HardFour => 13,
            Position::HardSix => 14,
            Position::HardEight => 15,
            Position::HardTen => 16,
            Position::OneRollSeven => 17,
            Position::OneRollTwo => 18,
            Position::OneRollThree => 19,
            Position::OneRollEleven => 20,
            Position::OneRollTwelve => 21,
        }
    }

    /// The betting area at a place in the layout, or nothing past the last.
    pub fn from_index(index: usize) -> (found: Option<Position>)
        ensures
            index < POSITIONS ==> found == Some(position_at(index as int)),
            index < POSITIONS ==> index_of(position_at(index as int)) == index,
            index >= POSITIONS ==> found is None,
    {
        match index {
            0 => Some(Position::Two),
            1 => Some(Position::Three),
            2 => Some(Position::Four),
            3 => Some(Position::Five),
            4 => Some(Position::Six),
            5 => Some(Position::Eight),
            6 => Some(Position::Nine),
            7 => Some(Position::Ten),
            8 => Some(Position::Eleven),
            9 => Some(Position::Twelve),
            10 => Some(Position::COME),
            11 => Some(Position::FIELD),
            12 => Some(Position::PassLine),
            13 => Some(Position::HardFour),
            14 => Some(Position::HardSix),
            15 => Some(Position::HardEight),
            16 => Some(Position::HardTen),
            17 => Some(Position::OneRollSeven),
            18 => Some(Position::OneRollTwo),
            19 => Some(Position::OneRollThree),
            20 => Some(Position::OneRollEleven),
            21 => Some(Position::OneRollTwelve),
            _ => None,
        }
    }

    /// The family of this betting area.
    pub fn class(&self) -> (class: WagerClass)
        ensures
            class == class_of(*self),
    {
        match self {
            Position::PassLine => WagerClass::Line,
            Position::FIELD => WagerClass::Field,
            Position::OneRollSeven
            | Position::OneRollTwo
            | Position::OneRollThree
            | Position::OneRollEleven
            | Position::OneRollTwelve => WagerClass::OneRoll,
            Position::HardFour
            | Position::HardSix
            | Position::HardEight
            | Position::HardTen => WagerClass::Hardway,
            Position::COME
            | Position::Two
            | Position::Three
            | Position::Four
            | Position::Five
            | Position::Six
            | Position::Eight
            | Position::Nine
            | Position::Ten
            | Position::Eleven
            | Position::Twelve => WagerClass::Come,
        }
    }

    /// The total that this betting area is named after, if any.
    pub fn target(&self) -> (target: Option<u8>)
        ensures
            match target {
                Some(total) => target_of(*self) == Some(total as int),
                None => target_of(*self) is None,
            },
    {
        match self {
            Position::Two | Position::OneRollTwo => Some(2),
            Position::Three | Position::OneRollThree => Some(3),
            Position::Four | Position::HardFour => Some(4),
            Position::Five => Some(5),
            Position::Six | Position::HardSix => Some(6),
            Position::OneRollSeven => Some(7),
            Position::Eight | Position::HardEight => Some(8),
            Position::Nine => Some(9),
            Position::Ten | Position::HardTen => Some(10),
            Position::Eleven | Position::OneRollEleven => Some(11),
            Position::Twelve | Position::OneRollTwelve => Some(12),
            Position::COME | Position::FIELD | Position::PassLine => None,
        }
    }
}

} // verus!
