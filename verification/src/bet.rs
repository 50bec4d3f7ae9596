//! Wagers: how one is made, what it holds, and how it is settled.

use crate::odds::{winnings_at, Odds, Ratio};
use crate::player::{Account, Player};
use vstd::prelude::*;
use vstd::string::StringExecFns;

verus! {

/// Why a command was turned down.
#[derive(Clone, Debug, PartialEq, Eq)]
pub enum BetError {
    /// Insufficient funds: the account holds less than the wager asks for.
    /// The name is the account's.
    NotEnoughMoney(String),
    /// A wager of nothing.
    InvalidAmount,
    /// The position takes no wager in the table's present phase, or holds
    /// none of the player's to withdraw.
    InvalidPosition,
    /// The table is not in the mode that the command needs.
    WrongMode,
    /// The player has no seat at the table.
    NotSeated,
    /// No account goes by that identity.
    UnknownAccount,
    /// No table goes by that number.
    UnknownTable,
    /// No seat could be found or made, or the table has no number left for
    /// one more wager.
    TableFull,
    /// A settlement could not be applied; the table concerned has halted.
    SettlementInvariantViolation,
}

impl BetError {
    /// What [`BetError::message`] returns.
    pub open spec fn message_text(&self) -> Seq<char> {
        match self {
            BetError::NotEnoughMoney(name) => "Not enough money to place bet: "@ + name@,
            BetError::InvalidAmount => "A bet must be of more than nothing"@,
            BetError::InvalidPosition => "The position is not open to this bet"@,
            BetError::WrongMode => "The table does not take this command now"@,
            BetError::NotSeated => "The player has no seat at this table"@,
            BetError::UnknownAccount => "No such account"@,
            BetError::UnknownTable => "No such table"@,
            BetError::TableFull => "No seat is free"@,
            BetError::SettlementInvariantViolation => "A settlement failed; the table has halted"@,
        }
    }

    /// The error in words.
    pub fn message(&self) -> (text: String)
        ensures
            text@ == self.message_text(),
    {
        match self {
            BetError::NotEnoughMoney(name) => {
                String::from_str("Not enough money to place bet: ").concat(name.as_str())
            },
            BetError::InvalidAmount => String::from_str("A bet must be of more than nothing"),
            BetError::InvalidPosition => String::from_str("The position is not open to this bet"),
            BetError::WrongMode => String::from_str("The table does not take this command now"),
            BetError::NotSeated => String::from_str("The player has no seat at this table"),
            BetError::UnknownAccount => String::from_str("No such account"),
            BetError::UnknownTable => String::from_str("No such table"),
            BetError::TableFull => String::from_str("No seat is free"),
            BetError::SettlementInvariantViolation => {
                String::from_str("A settlement failed; the table has halted")
            },
        }
    }
}

/// Where a wager stands.
#[derive(Clone, Copy, Debug, PartialEq, Eq, Structural)]
pub enum BetStatus {
    /// Placed, and not yet met by a roll.
    Active,
    Won,
    Lost,
    Pushed,
    /// Met by at least one roll that decided nothing; still in play.
    Carried,
}

/// What a roll, a withdrawal or a departure decides for one wager.
#[derive(Clone, Copy, Debug, PartialEq, Eq, Structural)]
pub enum Outcome {
    /// The stake goes back with winnings on top.
    Won,
    /// The stake is forfeited.
    Lost,
    /// The stake goes back, and nothing else.
    Pushed,
    /// Nothing moves; the wager stays in play.
    Carried,
}

/// A wager in play can still be settled; one that is won, lost or pushed
/// cannot.
pub open spec fn is_live(status: BetStatus) -> bool {
    status is Active || status is Carried
}

/// The status that an outcome leaves a wager in.
pub open spec fn status_after(outcome: Outcome) -> BetStatus {
    match outcome {
        Outcome::Won => BetStatus::Won,
        Outcome::Lost => BetStatus::Lost,
        Outcome::Pushed => BetStatus::Pushed,
        Outcome::Carried => BetStatus::Carried,
    }
}

/// How much of a stake an outcome hands back to its owner.
pub open spec fn stake_returned(amount: int, outcome: Outcome) -> int {
    match outcome {
        Outcome::Won | Outcome::Pushed => amount,
        Outcome::Lost | Outcome::Carried => 0,
    }
}

/// How much of a stake an outcome takes from its owner for good.
pub open spec fn stake_forfeited(amount: int, outcome: Outcome) -> int {
    match outcome {
        Outcome::Lost => amount,
        Outcome::Won | Outcome::Pushed | Outcome::Carried => 0,
    }
}

/// What an outcome pays on top of the stake.
pub open spec fn prize(amount: int, outcome: Outcome, odds: Odds) -> int {
    match outcome {
        Outcome::Won => winnings_at(amount, odds.num as int, odds.den as int),
        Outcome::Lost | Outcome::Pushed | Outcome::Carried => 0,
    }
}

/// What an outcome credits to the owner's account.
pub open spec fn credit_due(amount: int, outcome: Outcome, odds: Odds) -> int {
    stake_returned(amount, outcome) + prize(amount, outcome, odds)
}

/// What a [`Bet`] is, as a mathematical value.
pub struct Wager {
    /// The number that the table gave the wager, or 0 where no table has
    /// numbered it.
    pub id: u64,
    pub amount: u32,
    pub owner: u64,
    pub status: BetStatus,
}

/// The wager after `outcome`, or nothing where it was no longer in play.
pub open spec fn settled(wager: Wager, outcome: Outcome) -> Option<Wager> {
    if is_live(wager.status) {
        Some(Wager { status: status_after(outcome), ..wager })
    } else {
        None
    }
}

/// A stake taken from an account and held against the dice.
#[derive(Clone, Copy, Debug, PartialEq, Eq, Structural)]
pub struct Bet {
    id: u64,
    amount: u32,
    owner: u64,
    status: BetStatus,
}

impl View for Bet {
    type V = Wager;

    closed spec fn view(&self) -> Wager {
        Wager { id: self.id, amount: self.amount, owner: self.owner, status: self.status }
    }
}

/// A wager that has met an outcome, and what is owed to its owner for it.
#[derive(Clone, Copy, Debug, PartialEq, Eq, Structural)]
pub struct Settled {
    pub bet: Bet,
    pub outcome: Outcome,
    pub credit: u64,
}

impl Outcome {
    /// The status that this outcome leaves a wager in.
    pub fn status(self) -> (status: BetStatus)
        ensures
            status == status_after(self),
    {
        match self {
            Outcome::Won => BetStatus::Won,
            Outcome::Lost => BetStatus::Lost,
            Outcome::Pushed => BetStatus::Pushed,
            Outcome::Carried => BetStatus::Carried,
        }
    }
}

impl Bet {
    #[verifier::type_invariant]
    spec fn amount_is_positive(&self) -> bool {
        self.amount > 0
    }

    /// Takes `amount` from the player's account and makes an active wager of
    /// it, as yet without a number. Where the amount is zero or the account
    /// holds less, the account is left as it was and no wager is made.
    pub fn new(amount: u32, player: &mut Player) -> (made: Result<Bet, BetError>)
        ensures
            match made {
                Ok(bet) => {
                    &&& 0 < amount <= old(player)@.balance
                    &&& bet@ == (Wager {
                        id: 0,
                        amount,
                        owner: old(player)@.id,
                        status: BetStatus::Active,
                    })
                    &&& final(player)@ == (Account {
                        balance: old(player)@.balance - amount,
                        ..old(player)@
                    })
                },
                Err(BetError::InvalidAmount) => amount == 0 && final(player)@ == old(player)@,
                Err(BetError::NotEnoughMoney(name)) => {
                    &&& amount > old(player)@.balance
                    &&& name@ == old(player)@.name
                    &&& final(player)@ == old(player)@
                },
                Err(_) => false,
            },
    {
        if amount == 0 {
            return Err(BetError::InvalidAmount);
        }
        let owner = player.get_id();
        match player.debit(amount) {
            Ok(()) => Ok(Bet { id: 0, amount, owner, status: BetStatus::Active }),
            Err(e) => Err(e),
        }
    }

    /// The wager as `outcome` leaves it: the same stake of the same owner,
    /// in the status of the outcome.
    pub closed spec fn after(self, outcome: Outcome) -> Bet {
        Bet { status: status_after(outcome), ..self }
    }

    /// What [`Bet::after`] holds.
    pub proof fn lemma_after(self, outcome: Outcome)
        ensures
            self.after(outcome)@ == (Wager { status: status_after(outcome), ..self@ }),
    {
    }

    /// The same wager under the number `id`.
    pub fn numbered(self, id: u64) -> (bet: Bet)
        ensures
            bet@ == (Wager { id, ..self@ }),
    {
        proof {
            use_type_invariant(&self);
        }
        Bet { id, amount: self.amount, owner: self.owner, status: self.status }
    }

    /// The number that the table gave the wager, or 0.
    pub fn id(&self) -> (id: u64)
        ensures
            id == self@.id,
    {
        self.id
    }

    /// What was staked.
    pub fn amount(&self) -> (amount: u32)
        ensures
            amount == self@.amount,
            amount > 0,
    {
        proof {
            use_type_invariant(self);
        }
        self.amount
    }

    /// The identity of the account that the stake came from.
    pub fn owner(&self) -> (owner: u64)
        ensures
            owner == self@.owner,
    {
        self.owner
    }

    /// Where the wager stands.
    pub fn status(&self) -> (status: BetStatus)
        ensures
            status == self@.status,
    {
        self.status
    }

    /// Whether the wager can still be settled.
    pub fn is_live(&self) -> (live: bool)
        ensures
            live == is_live(self@.status),
    {
        match self.status {
            BetStatus::Active | BetStatus::Carried => true,
            BetStatus::Won | BetStatus::Lost | BetStatus::Pushed => false,
        }
    }

    /// The wager, carried: met by a roll that decided nothing for it, and
    /// still in play. A wager that is no longer in play is handed back as it
    /// is.
    pub fn carried(&self) -> (bet: Bet)
        ensures
            bet == if is_live(self@.status) {
                self.after(Outcome::Carried)
            } else {
                *self
            },
    {
        proof {
            use_type_invariant(self);
        }
        if self.is_live() {
            Bet { id: self.id, amount: self.amount, owner: self.owner, status: BetStatus::Carried }
        } else {
            *self
        }
    }

    /// Settles the wager: its status becomes that of `outcome`, and the
    /// credit owed is the stake where it won or was pushed, plus winnings at
    /// `odds` where it won. A wager that is no longer in play is refused.
    pub fn settle(&self, outcome: Outcome, odds: Ratio) -> (done: Result<Settled, BetError>)
        ensures
            match done {
                Ok(s) => {
                    &&& settled(self@, outcome) == Some(s.bet@)
                    &&& s.bet == self.after(outcome)
                    &&& s.outcome == outcome
                    &&& s.credit == credit_due(self@.amount as int, outcome, odds@)
                },
                Err(BetError::SettlementInvariantViolation) => settled(self@, outcome) is None,
                Err(_) => false,
            },
    {
        proof {
            use_type_invariant(self);
        }
        if !self.is_live() {
            return Err(BetError::SettlementInvariantViolation);
        }
        let bet = Bet {
            id: self.id,
            amount: self.amount,
            owner: self.owner,
            status: outcome.status(),
        };
        let credit: u64 = match outcome {
            Outcome::Won => {
                let won = odds.winnings(self.amount);
                self.amount as u64 + won
            },
            Outcome::Pushed => self.amount as u64,
            Outcome::Lost | Outcome::Carried => 0,
        };
        Ok(Settled { bet, outcome, credit })
    }
}

/// What an outcome credits is the stake that it hands back and the prize on
/// top: a win at even money pays twice the stake, a push pays the stake,
/// a loss and a carry pay nothing.
pub proof fn lemma_credit_due(amount: u32, outcome: Outcome, odds: Odds)
    ensures
        credit_due(amount as int, outcome, odds) == stake_returned(amount as int, outcome) + prize(
            amount as int,
            outcome,
            odds,
        ),
        outcome is Won && odds.num == 1 && odds.den == 1 ==> credit_due(
            amount as int,
            outcome,
            odds,
        ) == 2 * amount,
        outcome is Pushed ==> credit_due(amount as int, outcome, odds) == amount,
        outcome is Lost || outcome is Carried ==> credit_due(amount as int, outcome, odds) == 0,
        odds.den > 0 ==> 0 <= credit_due(amount as int, outcome, odds) <= u64::MAX,
{
    if odds.num == 1 && odds.den == 1 {
        assert(winnings_at(amount as int, 1, 1) == amount);
    }
    if odds.den > 0 {
        assert(0 <= amount * odds.num <= 0xffff_ffff * 0xffff_ffff) by (nonlinear_arith)
            requires
                0 <= amount <= 0xffff_ffff,
                0 <= odds.num <= 0xffff_ffff,
        ;
        assert(0 <= (amount * odds.num) / (odds.den as int) <= amount * odds.num)
            by (nonlinear_arith)
            requires
                0 <= amount * odds.num,
                odds.den >= 1,
        ;
    }
}

/// The account of one stake over the life of its wager.
pub struct Tally {
    pub wager: Wager,
    pub returned: int,
    pub forfeited: int,
}

/// The tally of a wager that has just been placed.
pub open spec fn tally_of(wager: Wager) -> Tally {
    Tally { wager, returned: 0, forfeited: 0 }
}

/// The tally after one more settlement is attempted. One that is refused
/// moves nothing.
pub open spec fn tally_after(tally: Tally, outcome: Outcome) -> Tally {
    match settled(tally.wager, outcome) {
        Some(wager) => Tally {
            wager,
            returned: tally.returned + stake_returned(wager.amount as int, outcome),
            forfeited: tally.forfeited + stake_forfeited(wager.amount as int, outcome),
        },
        None => tally,
    }
}

/// The tally after a run of settlements, attempted in order.
pub open spec fn tally_after_all(tally: Tally, outcomes: Seq<Outcome>) -> Tally
    decreases outcomes.len(),
{
    if outcomes.len() == 0 {
        tally
    } else {
        tally_after(tally_after_all(tally, outcomes.drop_last()), outcomes.last())
    }
}

/// Whatever settlements a wager in play meets, its stake is accounted for
/// exactly once: what was handed back and what was forfeited add up to the
/// stake once the wager has left play, and to nothing while it is still in
/// play.
pub proof fn lemma_stake_is_conserved(wager: Wager, outcomes: Seq<Outcome>)
    requires
        is_live(wager.status),
    ensures
        ({
            let end = tally_after_all(tally_of(wager), outcomes);
            &&& end.wager.amount == wager.amount
            &&& end.wager.owner == wager.owner
            &&& is_live(end.wager.status) ==> end.returned == 0 && end.forfeited == 0
            &&& !is_live(end.wager.status) ==> end.returned + end.forfeited == wager.amount
        }),
    decreases outcomes.len(),
{
    if outcomes.len() > 0 {
        lemma_stake_is_conserved(wager, outcomes.drop_last());
    }
}

/// A wager that has met an outcome other than a carry cannot be settled
/// again.
pub proof fn lemma_settled_once(wager: Wager, first: Outcome, second: Outcome)
    requires
        is_live(wager.status),
        first != Outcome::Carried,
    ensures
        settled(wager, first) is Some,
        settled(settled(wager, first)->0, second) is None,
{
}

} // verus!
