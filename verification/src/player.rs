//! Player accounts: an identity, a display name and a balance that never
//! drops below zero.

use crate::bet::BetError;
use vstd::prelude::*;

verus! {

/// What a [`Player`] is, as a mathematical value.
pub struct Account {
    pub id: u64,
    pub name: Seq<char>,
    pub balance: int,
}

/// A player's account.
///
/// The balance is changed by [`Player::credit`] and [`Player::debit`]; no
/// operation leaves it negative.
#[derive(Debug, PartialEq)]
pub struct Player {
    id: u64,
    name: String,
    amount: i32,
}

impl View for Player {
    type V = Account;

    closed spec fn view(&self) -> Account {
        Account { id: self.id, name: self.name@, balance: self.amount as int }
    }
}

impl Clone for Player {
    fn clone(&self) -> (copy: Player)
        ensures
            copy == *self,
    {
        proof {
            use_type_invariant(self);
        }
        Player { id: self.id, name: self.name.clone(), amount: self.amount }
    }
}

/// The balance that a debit of `amount` leaves: the debit is refused, and
/// the balance kept, where the account holds less than `amount`.
pub open spec fn balance_after_debit(balance: int, amount: int) -> int {
    if balance < amount {
        balance
    } else {
        balance - amount
    }
}

/// The balance that a credit of `amount` leaves: the credit is refused, and
/// the balance kept, where the sum would pass `i32::MAX`.
pub open spec fn balance_after_credit(balance: int, amount: int) -> int {
    if balance + amount > i32::MAX {
        balance
    } else {
        balance + amount
    }
}

impl Player {
    #[verifier::type_invariant]
    spec fn balance_is_not_negative(&self) -> bool {
        self.amount >= 0
    }

    /// A new account with identity 0, as yet unknown to any directory.
    pub fn new(name: String, amount: i32) -> (player: Player)
        requires
            amount >= 0,
        ensures
            player@ == (Account { id: 0, name: name@, balance: amount as int }),
    {
        Player { id: 0, name, amount }
    }

    /// A new account under the identity `id`.
    pub fn with_id(id: u64, name: String, amount: i32) -> (player: Player)
        requires
            amount >= 0,
        ensures
            player@ == (Account { id, name: name@, balance: amount as int }),
    {
        Player { id, name, amount }
    }

    /// The identity that the account goes by.
    pub fn get_id(&self) -> (id: u64)
        ensures
            id == self@.id,
    {
        self.id
    }

    /// The name that the player is shown under.
    pub fn get_name(&self) -> (name: &str)
        ensures
            name@ == self@.name,
    {
        self.name.as_str()
    }

    /// The balance.
    pub fn get_amount(&self) -> (amount: i32)
        ensures
            amount == self@.balance,
            amount >= 0,
    {
        proof {
            use_type_invariant(self);
        }
        self.amount
    }

    /// Replaces the balance.
    pub fn set_amount(&mut self, amount: i32)
        requires
            amount >= 0,
        ensures
            final(self)@ == (Account { balance: amount as int, ..old(self)@ }),
    {
        self.amount = amount;
    }

    /// Moves the balance by `amount`, up or down.
    pub fn add_amount(&mut self, amount: i32)
        requires
            0 <= old(self)@.balance + amount <= i32::MAX,
        ensures
            final(self)@ == (Account { balance: old(self)@.balance + amount, ..old(self)@ }),
    {
        self.amount = self.amount + amount;
    }

    /// Whether the account holds at least `amount`.
    pub fn can_debit(&self, amount: u32) -> (yes: bool)
        ensures
            yes <==> self@.balance >= amount,
    {
        proof {
            use_type_invariant(self);
        }
        amount <= self.amount as u32
    }

    /// Whether `amount` can be added without passing `i32::MAX`.
    pub fn can_credit(&self, amount: u64) -> (yes: bool)
        ensures
            yes <==> self@.balance + amount <= i32::MAX,
    {
        proof {
            use_type_invariant(self);
        }
        amount <= (i32::MAX - self.amount) as u64
    }

    /// Takes `amount` from the balance, or refuses and changes nothing where
    /// the account holds less.
    pub fn debit(&mut self, amount: u32) -> (taken: Result<(), BetError>)
        ensures
            match taken {
                Ok(()) => old(self)@.balance >= amount,
                Err(BetError::NotEnoughMoney(name)) => {
                    old(self)@.balance < amount && name@ == old(self)@.name
                },
                Err(_) => false,
            },
            final(self)@ == (Account {
                balance: balance_after_debit(old(self)@.balance, amount as int),
                ..old(self)@
            }),
            final(self)@.balance >= 0,
    {
        proof {
            use_type_invariant(&*self);
        }
        if self.can_debit(amount) {
            self.amount = self.amount - amount as i32;
            Ok(())
        } else {
            Err(BetError::NotEnoughMoney(self.name.clone()))
        }
    }

    /// Adds `amount` to the balance, or refuses and changes nothing where
    /// the sum would pass `i32::MAX`.
    pub fn credit(&mut self, amount: u64) -> (added: Result<(), BetError>)
        ensures
            match added {
                Ok(()) => old(self)@.balance + amount <= i32::MAX,
                Err(BetError::SettlementInvariantViolation) => {
                    old(self)@.balance + amount > i32::MAX
                },
                Err(_) => false,
            },
            final(self)@ == (Account {
                balance: balance_after_credit(old(self)@.balance, amount as int),
                ..old(self)@
            }),
            final(self)@.balance >= 0,
    {
        proof {
            use_type_invariant(&*self);
        }
        if self.can_credit(amount) {
            self.amount = self.amount + amount as i32;
            Ok(())
        } else {
            Err(BetError::SettlementInvariantViolation)
        }
    }
}

/// One request to a ledger.
pub enum LedgerOp {
    Debit(u32),
    Credit(u64),
}

/// The balance after one request.
pub open spec fn balance_after(balance: int, op: LedgerOp) -> int {
    match op {
        LedgerOp::Debit(amount) => balance_after_debit(balance, amount as int),
        LedgerOp::Credit(amount) => balance_after_credit(balance, amount as int),
    }
}

/// The balance after a run of requests, taken in order.
pub open spec fn balance_after_all(balance: int, ops: Seq<LedgerOp>) -> int
    decreases ops.len(),
{
    if ops.len() == 0 {
        balance
    } else {
        balance_after(balance_after_all(balance, ops.drop_last()), ops.last())
    }
}

/// A balance that starts at zero or above stays there, and within `i32`,
/// whatever debits and credits are asked of it, in whatever order.
pub proof fn lemma_balance_never_negative(balance: int, ops: Seq<LedgerOp>)
    requires
        0 <= balance <= i32::MAX,
    ensures
        0 <= balance_after_all(balance, ops) <= i32::MAX,
    decreases ops.len(),
{
    if ops.len() > 0 {
        lemma_balance_never_negative(balance, ops.drop_last());
    }
}

} // verus!
