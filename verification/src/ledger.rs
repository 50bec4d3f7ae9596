//! The directory of accounts: where the tables look a player up, take a
//! stake and pay what a settlement owes.

use crate::bet::{Bet, BetError, BetStatus, Outcome, Wager};
use crate::player::{Account, Player};
use crate::position::Position;
use vstd::prelude::*;

verus! {

/// One wager as a table settled it, and what is owed to its owner for it.
#[derive(Clone, Copy, Debug, PartialEq, Eq, Structural)]
pub struct Settlement {
    /// The number of the wager.
    pub wager: u64,
    /// Where the wager stood.
    pub position: Position,
    /// Whose wager it was.
    pub owner: u64,
    /// What was staked.
    pub stake: u32,
    /// What the wager met.
    pub outcome: Outcome,
    /// What goes to the owner's account: the stake where it comes back, and
    /// the winnings.
    pub credit: u64,
}

/// The accounts after `amount` is paid to `owner`, or nothing where that
/// cannot be done: no such account, or a balance that would pass
/// `i32::MAX`. Nothing owed is nothing to do.
pub open spec fn paid_one(accounts: Map<u64, Account>, owner: u64, amount: int) -> Option<
    Map<u64, Account>,
> {
    if amount == 0 {
        Some(accounts)
    } else if !accounts.contains_key(owner) {
        None
    } else if accounts[owner].balance + amount > i32::MAX {
        None
    } else {
        Some(
            accounts.insert(
                owner,
                Account { balance: accounts[owner].balance + amount, ..accounts[owner] },
            ),
        )
    }
}

/// The accounts after every settlement of `records` is paid, in order, or
/// nothing where one of them cannot be.
pub open spec fn paid(accounts: Map<u64, Account>, records: Seq<Settlement>) -> Option<
    Map<u64, Account>,
>
    decreases records.len(),
{
    if records.len() == 0 {
        Some(accounts)
    } else {
        match paid(accounts, records.drop_last()) {
            Some(so_far) => paid_one(
                so_far,
                records.last().owner,
                records.last().credit as int,
            ),
            None => None,
        }
    }
}

/// The accounts that are open, each under the identity it was given when it
/// was opened. Identities are given out from 1, and never twice: a closed
/// account leaves its place empty.
pub struct Directory {
    accounts: Vec<Option<Player>>,
}

/// The accounts in the places that hold one, each under the number of its
/// place.
spec fn accounts_in(places: Seq<Option<Player>>) -> Map<u64, Account> {
    Map::new(
        |id: u64| id < places.len() && places[id as int] is Some,
        |id: u64| places[id as int]->0@,
    )
}

impl View for Directory {
    type V = Map<u64, Account>;

    closed spec fn view(&self) -> Map<u64, Account> {
        accounts_in(self.accounts@)
    }
}

/// Every account goes by its own identity, one of the first `issued`, and
/// holds a balance from zero to `i32::MAX`.
pub open spec fn accounts_are_sound(accounts: Map<u64, Account>, issued: int) -> bool {
    forall|id: u64| #[trigger]
        accounts.contains_key(id) ==> {
            &&& accounts[id].id == id
            &&& id < issued
            &&& 0 <= accounts[id].balance <= i32::MAX
        }
}

/// Sound accounts stay sound when a sound account is put among them under
/// its own identity.
proof fn lemma_sound_after_insert(
    before: Map<u64, Account>,
    issued: int,
    account: Account,
    after: Map<u64, Account>,
    issued_after: int,
)
    requires
        accounts_are_sound(before, issued),
        after == before.insert(account.id, account),
        issued <= issued_after,
        account.id < issued_after,
        0 <= account.balance <= i32::MAX,
    ensures
        accounts_are_sound(after, issued_after),
{
    assert forall|id: u64| #[trigger] after.contains_key(id) implies {
        &&& after[id].id == id
        &&& id < issued_after
        &&& 0 <= after[id].balance <= i32::MAX
    } by {
        if id != account.id {
            assert(before.contains_key(id));
        }
    }
}

/// Sound accounts stay sound when one of them is taken away.
proof fn lemma_sound_after_remove(before: Map<u64, Account>, issued: int, id: u64)
    requires
        accounts_are_sound(before, issued),
    ensures
        accounts_are_sound(before.remove(id), issued),
{
    assert forall|k: u64| #[trigger] before.remove(id).contains_key(k) implies {
        &&& before.remove(id)[k].id == k
        &&& k < issued
        &&& 0 <= before.remove(id)[k].balance <= i32::MAX
    } by {
        assert(before.contains_key(k));
    }
}

/// Paying settlements keeps sound accounts sound.
pub proof fn lemma_paid_keeps_sound(
    accounts: Map<u64, Account>,
    issued: int,
    records: Seq<Settlement>,
)
    requires
        accounts_are_sound(accounts, issued),
        paid(accounts, records) is Some,
    ensures
        accounts_are_sound(paid(accounts, records)->0, issued),
        paid(accounts, records)->0.dom() == accounts.dom(),
    decreases records.len(),
{
    if records.len() > 0 {
        lemma_paid_keeps_sound(accounts, issued, records.drop_last());
        let so_far = paid(accounts, records.drop_last())->0;
        let owner = records.last().owner;
        let amount = records.last().credit as int;
        if amount != 0 {
            let account = Account { balance: so_far[owner].balance + amount, ..so_far[owner] };
            assert(so_far.contains_key(owner));
            lemma_sound_after_insert(
                so_far,
                issued,
                account,
                so_far.insert(owner, account),
                issued,
            );
            assert(so_far.insert(owner, account).dom() == so_far.dom());
        }
    }
}

/// What the settlements of `records` owe to `owner`, all told.
pub open spec fn owed_to(records: Seq<Settlement>, owner: u64) -> int
    decreases records.len(),
{
    if records.len() == 0 {
        0
    } else {
        owed_to(records.drop_last(), owner) + if records.last().owner == owner {
            records.last().credit as int
        } else {
            0
        }
    }
}

/// Paying settlements moves every account by what the settlements owe to
/// it, and by nothing else: no account is opened or closed, renamed or
/// renumbered, and what an account gains is the sum of its credits.
pub proof fn lemma_paid_is_what_is_owed(
    accounts: Map<u64, Account>,
    records: Seq<Settlement>,
    owner: u64,
)
    requires
        paid(accounts, records) is Some,
    ensures
        paid(accounts, records)->0.contains_key(owner) == accounts.contains_key(owner),
        accounts.contains_key(owner) ==> paid(accounts, records)->0[owner] == (Account {
            balance: accounts[owner].balance + owed_to(records, owner),
            ..accounts[owner]
        }),
        !accounts.contains_key(owner) ==> owed_to(records, owner) == 0,
    decreases records.len(),
{
    if records.len() > 0 {
        lemma_paid_is_what_is_owed(accounts, records.drop_last(), owner);
    }
}

/// Once a settlement cannot be paid, no longer run of settlements can.
pub proof fn lemma_paid_fails_for_good(
    accounts: Map<u64, Account>,
    records: Seq<Settlement>,
    upto: int,
)
    requires
        0 <= upto <= records.len(),
        paid(accounts, records.take(upto)) is None,
    ensures
        paid(accounts, records) is None,
    decreases records.len(),
{
    if upto == records.len() {
        assert(records.take(upto) == records);
    } else {
        assert(records.drop_last().take(upto) == records.take(upto));
        lemma_paid_fails_for_good(accounts, records.drop_last(), upto);
    }
}

impl Directory {
    /// The identity that the next account will go by.
    pub closed spec fn issued(&self) -> int {
        self.accounts@.len() as int
    }

    /// The directory is well formed: see [`accounts_are_sound`]. Every
    /// directory is, at all times.
    #[verifier::type_invariant]
    pub open spec fn wf(&self) -> bool {
        accounts_are_sound(self@, self.issued())
    }

    /// A directory with no account.
    pub fn new() -> (directory: Directory)
        ensures
            directory.wf(),
            directory@ == Map::<u64, Account>::empty(),
            directory.issued() == 1,
    {
        let mut accounts: Vec<Option<Player>> = Vec::new();
        accounts.push(None);
        let directory = Directory { accounts };
        proof {
            assert(directory@ == Map::<u64, Account>::empty());
        }
        directory
    }

    /// Opens an account and returns its identity: one that no account had
    /// before. A negative opening balance is refused.
    pub fn open(&mut self, name: String, amount: i32) -> (id: Option<u64>)
        ensures
            final(self).wf(),
            match id {
                Some(id) => {
                    &&& amount >= 0
                    &&& id == old(self).issued()
                    &&& !old(self)@.contains_key(id)
                    &&& final(self)@ == old(self)@.insert(
                        id,
                        Account { id, name: name@, balance: amount as int },
                    )
                    &&& final(self).issued() == old(self).issued() + 1
                },
                None => amount < 0 && *final(self) == *old(self),
            },
    {
        proof {
            use_type_invariant(&*self);
        }
        if amount < 0 {
            return None;
        }
        let mut accounts: Vec<Option<Player>> = Vec::new();
        core::mem::swap(&mut accounts, &mut self.accounts);
        let id = accounts.len() as u64;
        accounts.push(Some(Player::with_id(id, name, amount)));
        proof {
            let account = Account { id, name: name@, balance: amount as int };
            assert(accounts_in(accounts@) == old(self)@.insert(id, account));
            lemma_sound_after_insert(
                old(self)@,
                old(self).issued(),
                account,
                accounts_in(accounts@),
                accounts@.len() as int,
            );
        }
        self.accounts = accounts;
        Some(id)
    }

    /// Closes an account and hands it back, balance and all.
    pub fn close(&mut self, id: u64) -> (closed: Option<Player>)
        ensures
            final(self).wf(),
            final(self)@ == old(self)@.remove(id),
            final(self).issued() == old(self).issued(),
            match closed {
                Some(player) => old(self)@.contains_key(id) && player@ == old(self)@[id],
                None => !old(self)@.contains_key(id),
            },
    {
        proof {
            use_type_invariant(&*self);
        }
        if id >= self.accounts.len() as u64 {
            return None;
        }
        let mut accounts: Vec<Option<Player>> = Vec::new();
        core::mem::swap(&mut accounts, &mut self.accounts);
        let mut slot: Option<Player> = None;
        core::mem::swap(&mut slot, &mut accounts[id as usize]);
        proof {
            assert(accounts_in(accounts@) == old(self)@.remove(id));
            lemma_sound_after_remove(old(self)@, old(self).issued(), id);
        }
        self.accounts = accounts;
        slot
    }

    /// Whether an account goes by `id`.
    pub fn contains(&self, id: u64) -> (found: bool)
        ensures
            found == self@.contains_key(id),
    {
        id < self.accounts.len() as u64 && self.accounts[id as usize].is_some()
    }

    /// The account that goes by `id`.
    pub fn get(&self, id: u64) -> (found: Option<&Player>)
        ensures
            match found {
                Some(player) => self@.contains_key(id) && player@ == self@[id],
                None => !self@.contains_key(id),
            },
    {
        if id >= self.accounts.len() as u64 {
            return None;
        }
        self.accounts[id as usize].as_ref()
    }

    /// The balance of the account that goes by `id`.
    pub fn balance(&self, id: u64) -> (balance: Option<i32>)
        ensures
            match balance {
                Some(balance) => self@.contains_key(id) && balance == self@[id].balance,
                None => !self@.contains_key(id),
            },
    {
        match self.get(id) {
            Some(player) => Some(player.get_amount()),
            None => None,
        }
    }

    /// Takes `amount` from the account `id` and makes an active wager of it.
    /// Where there is no such account, the amount is zero or the account
    /// holds less, nothing changes.
    pub fn stake(&mut self, id: u64, amount: u32) -> (made: Result<Bet, BetError>)
        ensures
            final(self).wf(),
            final(self).issued() == old(self).issued(),
            match made {
                Ok(bet) => {
                    &&& old(self)@.contains_key(id)
                    &&& 0 < amount <= old(self)@[id].balance
                    &&& bet@ == (Wager {
                        id: 0,
                        amount,
                        owner: id,
                        status: BetStatus::Active,
                    })
                    &&& final(self)@ == old(self)@.insert(
                        id,
                        Account { balance: old(self)@[id].balance - amount, ..old(self)@[id] },
                    )
                },
                Err(BetError::UnknownAccount) => {
                    !old(self)@.contains_key(id) && final(self)@ == old(self)@
                },
                Err(BetError::InvalidAmount) => {
                    old(self)@.contains_key(id) && amount == 0 && final(self)@ == old(self)@
                },
                Err(BetError::NotEnoughMoney(name)) => {
                    &&& old(self)@.contains_key(id)
                    &&& amount > old(self)@[id].balance
                    &&& name@ == old(self)@[id].name
                    &&& final(self)@ == old(self)@
                },
                Err(_) => false,
            },
    {
        proof {
            use_type_invariant(&*self);
        }
        if id >= self.accounts.len() as u64 {
            return Err(BetError::UnknownAccount);
        }
        let mut accounts: Vec<Option<Player>> = Vec::new();
        core::mem::swap(&mut accounts, &mut self.accounts);
        let made = match &mut accounts[id as usize] {
            Some(player) => Bet::new(amount, player),
            None => Err(BetError::UnknownAccount),
        };
        proof {
            if made is Ok {
                assert(old(self)@.contains_key(id));
                let account = Account {
                    balance: old(self)@[id].balance - amount,
                    ..old(self)@[id]
                };
                assert(accounts_in(accounts@) == old(self)@.insert(id, account));
                lemma_sound_after_insert(
                    old(self)@,
                    old(self).issued(),
                    account,
                    accounts_in(accounts@),
                    old(self).issued(),
                );
            } else {
                assert(accounts_in(accounts@) == old(self)@);
            }
        }
        self.accounts = accounts;
        made
    }

    /// Pays `amount` into the account `id`. Where that cannot be done,
    /// nothing changes.
    pub fn pay(&mut self, id: u64, amount: u64) -> (done: Result<(), BetError>)
        ensures
            final(self).wf(),
            final(self).issued() == old(self).issued(),
            match paid_one(old(self)@, id, amount as int) {
                Some(accounts) => done is Ok && final(self)@ == accounts,
                None => {
                    &&& done matches Err(e)
                    &&& e == if old(self)@.contains_key(id) {
                        BetError::SettlementInvariantViolation
                    } else {
                        BetError::UnknownAccount
                    }
                    &&& final(self)@ == old(self)@
                },
            },
    {
        proof {
            use_type_invariant(&*self);
        }
        if amount == 0 {
            return Ok(());
        }
        if id >= self.accounts.len() as u64 {
            return Err(BetError::UnknownAccount);
        }
        let mut accounts: Vec<Option<Player>> = Vec::new();
        core::mem::swap(&mut accounts, &mut self.accounts);
        let done = match &mut accounts[id as usize] {
            Some(player) => player.credit(amount),
            None => Err(BetError::UnknownAccount),
        };
        proof {
            if done is Ok {
                let account = Account {
                    balance: old(self)@[id].balance + amount,
                    ..old(self)@[id]
                };
                assert(accounts_in(accounts@) == old(self)@.insert(id, account));
                lemma_sound_after_insert(
                    old(self)@,
                    old(self).issued(),
                    account,
                    accounts_in(accounts@),
                    old(self).issued(),
                );
            } else {
                assert(accounts_in(accounts@) == old(self)@);
            }
        }
        self.accounts = accounts;
        done
    }

    /// Takes back what [`Directory::pay`] paid.
    fn take_back(&mut self, id: u64, amount: u64)
        requires
            old(self)@.contains_key(id),
            amount <= old(self)@[id].balance,
        ensures
            final(self).wf(),
            final(self).issued() == old(self).issued(),
            final(self)@ == old(self)@.insert(
                id,
                Account { balance: old(self)@[id].balance - amount, ..old(self)@[id] },
            ),
    {
        proof {
            use_type_invariant(&*self);
        }
        assert(id < self.accounts.len() && self.accounts@[id as int] is Some);
        assert(amount <= i32::MAX);
        let mut accounts: Vec<Option<Player>> = Vec::new();
        core::mem::swap(&mut accounts, &mut self.accounts);
        match &mut accounts[id as usize] {
            Some(player) => {
                let _ = player.debit(amount as u32);
            },
            None => {},
        }
        proof {
            let account = Account { balance: old(self)@[id].balance - amount, ..old(self)@[id] };
            assert(accounts_in(accounts@) == old(self)@.insert(id, account));
            lemma_sound_after_insert(
                old(self)@,
                old(self).issued(),
                account,
                accounts_in(accounts@),
                old(self).issued(),
            );
        }
        self.accounts = accounts;
    }

    /// Pays every settlement of `records`, in order, or none of them: where
    /// one cannot be paid, every account is left as it was.
    pub fn settle_all(&mut self, records: &Vec<Settlement>) -> (done: Result<(), BetError>)
        ensures
            final(self).wf(),
            final(self).issued() == old(self).issued(),
            match paid(old(self)@, records@) {
                Some(accounts) => done is Ok && final(self)@ == accounts,
                None => {
                    &&& done == Err::<(), BetError>(BetError::SettlementInvariantViolation)
                    &&& final(self)@ == old(self)@
                },
            },
    {
        proof {
            use_type_invariant(&*self);
        }
        let mut next: usize = 0;
        let mut failed = false;
        while next < records.len()
            invariant_except_break
                !failed,
            invariant
                next <= records.len(),
                self.wf(),
                self.issued() == old(self).issued(),
                paid(old(self)@, records@.take(next as int)) == Some(self@),
            ensures
                !failed ==> next == records.len(),
                failed ==> next < records.len() && paid(
                    old(self)@,
                    records@.take(next + 1),
                ) is None,
            decreases records.len() - next,
        {
            let owner = records[next].owner;
            let credit = records[next].credit;
            proof {
                assert(records@.take(next + 1).drop_last() == records@.take(next as int));
            }
            match self.pay(owner, credit) {
                Ok(()) => {
                    next += 1;
                },
                Err(_) => {
                    failed = true;
                    break ;
                },
            }
        }
        if !failed {
            proof {
                assert(records@.take(next as int) == records@);
            }
            return Ok(());
        }
        proof {
            lemma_paid_fails_for_good(old(self)@, records@, next + 1);
        }
        while next > 0
            invariant
                next <= records.len(),
                self.wf(),
                old(self).wf(),
                self.issued() == old(self).issued(),
                paid(old(self)@, records@.take(next as int)) == Some(self@),
            decreases next,
        {
            next -= 1;
            let owner = records[next].owner;
            let credit = records[next].credit;
            proof {
                assert(records@.take(next + 1).drop_last() == records@.take(next as int));
                lemma_paid_keeps_sound(old(self)@, old(self).issued(), records@.take(next as int));
            }
            if credit > 0 {
                let ghost before = paid(old(self)@, records@.take(next as int))->0;
                proof {
                    assert(before.contains_key(owner));
                }
                self.take_back(owner, credit);
                proof {
                    assert(self@ == before);
                }
            }
        }
        proof {
            assert(records@.take(0) == Seq::<Settlement>::empty());
        }
        Err(BetError::SettlementInvariantViolation)
    }
}

} // verus!
