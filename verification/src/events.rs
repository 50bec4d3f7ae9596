//! What the tables have to tell the players: the messages that the
//! transport sends out, made from what the engine reports.

use crate::bet::Outcome;
use crate::crapless::RollReport;
use crate::game::Removal;
use crate::ledger::{Directory, Settlement};
use crate::player::Account;
use crate::rules::TablePhase;
use vstd::prelude::*;

verus! {

/// One message to the players.
#[derive(Clone, Copy, Debug, PartialEq, Eq, Structural)]
pub enum Broadcast {
    /// A player was seated at a table.
    TableJoined { table_id: u32 },
    /// An account holds a new balance.
    BalanceChanged { account_id: u64, new_balance: i32 },
    /// The dice were thrown.
    RollResult { dice_total: u8, phase: TablePhase, point: Option<u8> },
    /// A wager met an outcome.
    WagerSettled { wager_id: u64, outcome: Outcome },
    /// A table was retired.
    TableRetired { table_id: u32 },
}

/// The point of a phase, if it has one.
pub open spec fn point_of(phase: TablePhase) -> Option<u8> {
    match phase {
        TablePhase::ComeOut => None,
        TablePhase::PointOn(point) => Some(point),
    }
}

/// The messages for one settled wager: what it met, and the new balance of
/// its owner where something was paid into an account that is still open.
pub open spec fn record_events(record: Settlement, accounts: Map<u64, Account>) -> Seq<Broadcast> {
    let settled = Broadcast::WagerSettled { wager_id: record.wager, outcome: record.outcome };
    if record.credit > 0 && accounts.contains_key(record.owner) {
        seq![
            settled,
            Broadcast::BalanceChanged {
                account_id: record.owner,
                new_balance: accounts[record.owner].balance as i32,
            },
        ]
    } else {
        seq![settled]
    }
}

/// The messages for a run of settled wagers, in their order.
pub open spec fn records_events(records: Seq<Settlement>, accounts: Map<u64, Account>) -> Seq<
    Broadcast,
>
    decreases records.len(),
{
    if records.len() == 0 {
        Seq::empty()
    } else {
        records_events(records.drop_last(), accounts) + record_events(records.last(), accounts)
    }
}

/// The messages for the settled wagers of `records`, with balances as
/// `directory` holds them now.
pub fn settlement_events(records: &Vec<Settlement>, directory: &Directory) -> (events: Vec<
    Broadcast,
>)
    ensures
        events@ == records_events(records@, directory@),
{
    let mut events: Vec<Broadcast> = Vec::new();
    let mut index: usize = 0;
    while index < records.len()
        invariant
            index <= records.len(),
            events@ == records_events(records@.take(index as int), directory@),
        decreases records.len() - index,
    {
        let record = &records[index];
        let ghost before = events@;
        proof {
            assert(records@.take(index + 1).drop_last() == records@.take(index as int));
        }
        events.push(Broadcast::WagerSettled { wager_id: record.wager, outcome: record.outcome });
        if record.credit > 0 {
            match directory.balance(record.owner) {
                Some(balance) => {
                    events.push(
                        Broadcast::BalanceChanged {
                            account_id: record.owner,
                            new_balance: balance,
                        },
                    );
                },
                None => {},
            }
        }
        proof {
            assert(events@ == before + record_events(*record, directory@));
        }
        index += 1;
    }
    proof {
        assert(records@.take(index as int) == records@);
    }
    events
}

/// The messages for a roll: the result, then the settled wagers.
pub fn roll_events(report: &RollReport, directory: &Directory) -> (events: Vec<Broadcast>)
    ensures
        events@ == seq![
            Broadcast::RollResult {
                dice_total: report.total,
                phase: report.phase,
                point: point_of(report.phase),
            },
        ] + records_events(report.settled@, directory@),
{
    let mut events: Vec<Broadcast> = Vec::new();
    events.push(
        Broadcast::RollResult {
            dice_total: report.total,
            phase: report.phase,
            point: report.phase.point(),
        },
    );
    let mut settled = settlement_events(&report.settled, directory);
    events.append(&mut settled);
    events
}

/// The messages for a departure: the wagers of the player who left, then
/// the retirement of the table where it was retired.
pub fn removal_events(removal: &Removal, directory: &Directory) -> (events: Vec<Broadcast>)
    ensures
        events@ == records_events(removal.departure.settled@, directory@) + if removal.retired {
            seq![Broadcast::TableRetired { table_id: removal.table }]
        } else {
            Seq::<Broadcast>::empty()
        },
{
    let mut events = settlement_events(&removal.departure.settled, directory);
    if removal.retired {
        events.push(Broadcast::TableRetired { table_id: removal.table });
    }
    events
}

} // verus!
