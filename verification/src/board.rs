//! The board: the wagers that stand on each betting area, in the order in
//! which they were placed.

use crate::bet::Bet;
use crate::position::{index_of, lemma_layout_is_one_to_one, position_at, Position, POSITIONS};
use vstd::prelude::*;

verus! {

/// The wagers of one table, by betting area.
pub struct Board {
    bets: [Vec<Bet>; 22],
}

impl View for Board {
    type V = Map<Position, Seq<Bet>>;

    /// The betting areas that hold a wager, each with its wagers in the
    /// order in which they were placed.
    open spec fn view(&self) -> Map<Position, Seq<Bet>> {
        Map::new(
            |position: Position| self.at(position).len() > 0,
            |position: Position| self.at(position),
        )
    }
}

/// The wagers that belong to `owner`.
pub open spec fn owned_by(owner: u64) -> spec_fn(Bet) -> bool {
    |bet: Bet| bet@.owner == owner
}

/// The wagers that belong to anyone but `owner`.
pub open spec fn not_owned_by(owner: u64) -> spec_fn(Bet) -> bool {
    |bet: Bet| bet@.owner != owner
}

impl Board {
    /// The wagers on `position`, in the order in which they were placed;
    /// empty where it holds none.
    pub closed spec fn at(&self, position: Position) -> Seq<Bet> {
        self.bets[index_of(position)]@
    }

    /// The wagers on every betting area, the empty ones too.
    pub open spec fn layout(&self) -> Map<Position, Seq<Bet>> {
        Map::new(|position: Position| true, |position: Position| self.at(position))
    }

    /// The betting areas before the place `index` of the layout that hold a
    /// wager.
    spec fn held_below(&self, index: int) -> Set<Position> {
        Set::new(|position: Position| index_of(position) < index && self.at(position).len() > 0)
    }

    /// A board with no wager on it.
    pub fn new() -> (board: Board)
        ensures
            forall|position: Position| #[trigger] board.at(position) == Seq::<Bet>::empty(),
            board@ == Map::<Position, Seq<Bet>>::empty(),
    {
        let board = Board {
            bets: [
                Vec::new(),
                Vec::new(),
                Vec::new(),
                Vec::new(),
                Vec::new(),
                Vec::new(),
                Vec::new(),
                Vec::new(),
                Vec::new(),
                Vec::new(),
                Vec::new(),
                Vec::new(),
                Vec::new(),
                Vec::new(),
                Vec::new(),
                Vec::new(),
                Vec::new(),
                Vec::new(),
                Vec::new(),
                Vec::new(),
                Vec::new(),
                Vec::new(),
            ],
        };
        proof {
            lemma_layout_is_one_to_one();
            assert forall|position: Position| #[trigger]
                board.at(position) == Seq::<Bet>::empty() by {
                assert(0 <= index_of(position) < 22);
            }
        }
        board
    }

    /// Puts `bet` on `position`, behind the wagers that are there.
    pub fn add_bet(&mut self, position: Position, bet: Bet)
        ensures
            final(self).at(position) == old(self).at(position).push(bet),
            forall|other: Position|
                other != position ==> #[trigger] final(self).at(other) == old(self).at(other),
            final(self)@ == old(self)@.insert(position, old(self).at(position).push(bet)),
    {
        self.bets[position.index()].push(bet);
        proof {
            lemma_layout_is_one_to_one();
        }
    }

    /// Takes every wager off `position`.
    pub fn clear_bet(&mut self, position: Position)
        ensures
            final(self).at(position) == Seq::<Bet>::empty(),
            forall|other: Position|
                other != position ==> #[trigger] final(self).at(other) == old(self).at(other),
            final(self)@ == old(self)@.remove(position),
    {
        self.bets[position.index()].clear();
        proof {
            lemma_layout_is_one_to_one();
        }
    }

    /// Takes every wager off the board.
    pub fn clear_all_bets(&mut self)
        ensures
            forall|position: Position| #[trigger] final(self).at(position) == Seq::<Bet>::empty(),
            final(self)@ == Map::<Position, Seq<Bet>>::empty(),
    {
        let mut index: usize = 0;
        while index < POSITIONS
            invariant
                index <= POSITIONS,
                forall|i: int| 0 <= i < index ==> #[trigger] self.bets[i]@ == Seq::<Bet>::empty(),
            decreases POSITIONS - index,
        {
            self.bets[index].clear();
            index += 1;
        }
        proof {
            lemma_layout_is_one_to_one();
        }
    }

    /// The wagers on `position`, or nothing where it holds none.
    pub fn get_bet(&self, position: Position) -> (found: Option<&Vec<Bet>>)
        ensures
            match found {
                Some(bets) => bets@ == self.at(position) && bets@.len() > 0,
                None => self.at(position).len() == 0,
            },
            found is Some <==> self@.contains_key(position),
    {
        let bets = &self.bets[position.index()];
        if bets.is_empty() {
            None
        } else {
            Some(bets)
        }
    }

    /// How many betting areas hold a wager.
    pub fn len(&self) -> (count: usize)
        ensures
            self@.dom().finite(),
            count == self@.dom().len(),
            count <= POSITIONS,
    {
        let mut count: usize = 0;
        let mut index: usize = 0;
        proof {
            assert(self.held_below(0) == Set::<Position>::empty());
        }
        while index < POSITIONS
            invariant
                index <= POSITIONS,
                count <= index,
                self.held_below(index as int).finite(),
                count == self.held_below(index as int).len(),
            decreases POSITIONS - index,
        {
            proof {
                lemma_layout_is_one_to_one();
                let here = position_at(index as int);
                if self.bets[index as int]@.len() > 0 {
                    assert(self.held_below(index + 1) == self.held_below(index as int).insert(
                        here,
                    ));
                } else {
                    assert(self.held_below(index + 1) == self.held_below(index as int));
                }
            }
            if !self.bets[index].is_empty() {
                count += 1;
            }
            index += 1;
        }
        proof {
            lemma_layout_is_one_to_one();
            assert(self.held_below(POSITIONS as int) == self@.dom());
        }
        count
    }

    /// Whether no betting area holds a wager.
    pub fn is_empty(&self) -> (empty: bool)
        ensures
            empty <==> self@ == Map::<Position, Seq<Bet>>::empty(),
            empty <==> forall|position: Position| #[trigger] self.at(position).len() == 0,
    {
        let count = self.len();
        proof {
            if count == 0 {
                assert(self@.dom() == Set::<Position>::empty());
                assert(self@ == Map::<Position, Seq<Bet>>::empty());
                assert forall|position: Position| #[trigger] self.at(position).len() == 0 by {
                    assert(!self@.dom().contains(position));
                }
            } else {
                assert(self@.dom().len() != 0);
                assert(self@.dom() != Set::<Position>::empty());
                if forall|position: Position| #[trigger] self.at(position).len() == 0 {
                    assert(self@.dom() == Set::<Position>::empty());
                }
            }
        }
        count == 0
    }

    /// Puts `bets` on `position` in place of the wagers that were there, and
    /// hands those back.
    pub fn replace(&mut self, position: Position, bets: Vec<Bet>) -> (before: Vec<Bet>)
        ensures
            before@ == old(self).at(position),
            final(self).at(position) == bets@,
            forall|other: Position|
                other != position ==> #[trigger] final(self).at(other) == old(self).at(other),
    {
        let mut bets = bets;
        core::mem::swap(&mut bets, &mut self.bets[position.index()]);
        proof {
            lemma_layout_is_one_to_one();
        }
        bets
    }

    /// Takes the wagers of `owner` off `position` and hands them back; the
    /// wagers of others stay, in their order.
    pub fn withdraw(&mut self, position: Position, owner: u64) -> (taken: Vec<Bet>)
        ensures
            taken@ == old(self).at(position).filter(owned_by(owner)),
            final(self).at(position) == old(self).at(position).filter(not_owned_by(owner)),
            forall|other: Position|
                other != position ==> #[trigger] final(self).at(other) == old(self).at(other),
    {
        let before = self.replace(position, Vec::new());
        let mut taken: Vec<Bet> = Vec::new();
        let mut kept: Vec<Bet> = Vec::new();
        let mut index: usize = 0;
        proof {
            broadcast use Seq::lemma_filter_len;

            assert(before@.take(0) == Seq::<Bet>::empty());
        }
        while index < before.len()
            invariant
                index <= before.len(),
                taken@ == before@.take(index as int).filter(owned_by(owner)),
                kept@ == before@.take(index as int).filter(not_owned_by(owner)),
            decreases before.len() - index,
        {
            let bet = before[index];
            proof {
                assert(before@.take(index + 1) == before@.take(index as int).push(bet));
                Seq::lemma_filter_push(before@.take(index as int), bet, owned_by(owner));
                Seq::lemma_filter_push(before@.take(index as int), bet, not_owned_by(owner));
            }
            if bet.owner() == owner {
                taken.push(bet);
            } else {
                kept.push(bet);
            }
            index += 1;
        }
        proof {
            assert(before@.take(index as int) == before@);
        }
        self.replace(position, kept);
        taken
    }
}

} // verus!
