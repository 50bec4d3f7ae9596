//! The table as a mathematical value: what it holds, when it is well
//! formed, and what each command and each roll makes of it.

use crate::bet::{credit_due, is_live, Bet, BetError, BetStatus, Outcome, Wager};
use crate::board::{not_owned_by, owned_by};
use crate::crapless::{Departure, GameState, LeavePolicy, RollReport, TableEvent};
use crate::ledger::{paid, Settlement};
use crate::odds::{Odds, PayTable};
use crate::player::Account;
use crate::position::{index_of, lemma_layout_is_one_to_one, position_at, Position, POSITIONS};
use crate::rules::{next_phase, outcome_of, takes_wagers, Dice, TablePhase};
use crate::upkeep::{
    drawn_from, lemma_drawn_from_carried, lemma_drawn_from_filter, lemma_drawn_from_itself,
    lemma_filter_no_duplicates, lemma_in_play_carried, lemma_in_play_filter, lemma_in_play_push,
    lemma_in_play_without, lemma_numbers_after_placing, lemma_numbers_differ_within,
    lemma_numbers_still_differ, lemma_ready_without, lemma_roster_push, lemma_roster_without,
};
use vstd::prelude::*;

verus! {

/// What a [`CraplessCraps`] is, as a mathematical value.
pub struct Table {
    pub id: u32,
    /// The seated players, by the identity of their accounts, in the order
    /// in which they sat down.
    pub roster: Seq<u64>,
    /// The wagers on every betting area, in the order in which they were
    /// placed.
    pub wagers: Map<Position, Seq<Bet>>,
    pub phase: TablePhase,
    pub mode: GameState,
    /// The seated players who have said that they are done betting, in the
    /// order in which they said so.
    pub ready: Seq<u64>,
    /// Whether a settlement has failed at this table.
    pub halted: bool,
    /// The number that the next wager will go by.
    pub next_wager: u64,
    pub policy: LeavePolicy,
    pub odds: PayTable,
}

/// A wager is in play at a table where it can still be settled and its
/// owner has a seat.
pub open spec fn in_play(roster: Seq<u64>, bet: Bet) -> bool {
    is_live(bet@.status) && roster.contains(bet@.owner)
}

/// Every wager of `bets` can still be settled.
pub open spec fn all_live(bets: Seq<Bet>) -> bool {
    forall|i: int| 0 <= i < bets.len() ==> is_live((#[trigger] bets[i])@.status)
}

/// Every wager of `bets` is in play.
pub open spec fn all_in_play(roster: Seq<u64>, bets: Seq<Bet>) -> bool {
    forall|i: int| 0 <= i < bets.len() ==> in_play(roster, #[trigger] bets[i])
}

/// Every wager of `bets` goes by a number below `next`.
pub open spec fn numbered_below(next: u64, bets: Seq<Bet>) -> bool {
    forall|i: int| 0 <= i < bets.len() ==> (#[trigger] bets[i])@.id < next
}

/// No two wagers on the board go by one number.
pub open spec fn numbers_differ(wagers: Map<Position, Seq<Bet>>) -> bool {
    forall|p: Position, i: int, q: Position, j: int|
        0 <= i < wagers[p].len() && 0 <= j < wagers[q].len() && (p != q || i != j) ==> (
        #[trigger] wagers[p][i])@.id != (#[trigger] wagers[q][j])@.id
}

impl Table {
    /// Whether every seated player has said that they are done betting.
    pub open spec fn all_ready(self) -> bool {
        forall|i: int| 0 <= i < self.roster.len() ==> self.ready.contains(#[trigger] self.roster[i])
    }

    /// A table is well formed where nobody sits twice, only the seated are
    /// ready, the point can be a point, every wager on the board is in play,
    /// and each goes by a number of its own, given out before the next.
    pub open spec fn wf(self) -> bool {
        &&& self.roster.no_duplicates()
        &&& self.roster.len() <= u32::MAX
        &&& self.ready.no_duplicates()
        &&& forall|i: int|
            0 <= i < self.ready.len() ==> self.roster.contains(#[trigger] self.ready[i])
        &&& self.phase.wf()
        &&& forall|position: Position| self.wagers.contains_key(position)
        &&& forall|position: Position| all_in_play(self.roster, #[trigger] self.wagers[position])
        &&& forall|position: Position|
            numbered_below(self.next_wager, #[trigger] self.wagers[position])
        &&& numbers_differ(self.wagers)
    }
}

/// A board with nothing on it.
pub open spec fn no_wagers() -> Map<Position, Seq<Bet>> {
    Map::new(|position: Position| true, |position: Position| Seq::<Bet>::empty())
}

/// The table as it is set up: betting open, no point, nothing on the board,
/// and wagers numbered from 1.
pub open spec fn fresh_table(
    id: u32,
    roster: Seq<u64>,
    policy: LeavePolicy,
    odds: PayTable,
) -> Table {
    Table {
        id,
        roster,
        wagers: no_wagers(),
        phase: TablePhase::ComeOut,
        mode: GameState::Betting,
        ready: Seq::empty(),
        halted: false,
        next_wager: 1,
        policy,
        odds,
    }
}

/// The roster after each of `players` has asked for a seat, in order. A
/// player who has a seat already is passed over, and so is everybody once
/// the roster cannot grow.
pub open spec fn seated_in_turn(players: Seq<u64>) -> Seq<u64>
    decreases players.len(),
{
    if players.len() == 0 {
        Seq::empty()
    } else {
        let roster = seated_in_turn(players.drop_last());
        if roster.contains(players.last()) || roster.len() >= u32::MAX {
            roster
        } else {
            roster.push(players.last())
        }
    }
}

/// Why a table turns a player's command down before it looks at the
/// wager, if it does: the table has halted, it is not taking wagers, or the
/// player has no seat.
pub open spec fn command_refusal(table: Table, player: u64) -> Option<BetError> {
    if table.halted {
        Some(BetError::SettlementInvariantViolation)
    } else if table.mode != GameState::Betting {
        Some(BetError::WrongMode)
    } else if !table.roster.contains(player) {
        Some(BetError::NotSeated)
    } else {
        None
    }
}

/// One to one.
pub open spec fn even_money() -> Odds {
    Odds { num: 1, den: 1 }
}

/// The record of one wager settled: who gets what for it.
pub open spec fn settlement_of(
    position: Position,
    bet: Bet,
    outcome: Outcome,
    odds: Odds,
) -> Settlement {
    Settlement {
        wager: bet@.id,
        position,
        owner: bet@.owner,
        stake: bet@.amount,
        outcome,
        credit: credit_due(bet@.amount as int, outcome, odds) as u64,
    }
}

/// The records of the wagers of one betting area, all settled alike.
pub open spec fn settle_area(
    position: Position,
    bets: Seq<Bet>,
    outcome: Outcome,
    odds: Odds,
) -> Seq<Settlement> {
    bets.map_values(|bet: Bet| settlement_of(position, bet, outcome, odds))
}

/// What [`CraplessCraps::place_wager`] does: `placed` is what it returns
/// for the table `before` and the accounts `accounts`, and `after` and
/// `accounts_after` are what it leaves.
///
/// The wager is placed where nothing stands against it: the stake leaves
/// the player's account and the wager goes on the board under the table's
/// next number, behind those that stand on the betting area. It is turned
/// down, and nothing changes, where the table refuses the player's commands,
/// the betting area takes no wager in the present phase, the table has run
/// out of numbers, the player has no account, the amount is zero, or the
/// account holds less: in that order.
pub open spec fn placement(
    before: Table,
    accounts: Map<u64, Account>,
    player: u64,
    amount: u32,
    position: Position,
    placed: Result<Bet, BetError>,
    after: Table,
    accounts_after: Map<u64, Account>,
) -> bool {
    match placed {
        Ok(bet) => {
            &&& command_refusal(before, player) is None
            &&& takes_wagers(position, before.phase)
            &&& before.next_wager < u64::MAX
            &&& accounts.contains_key(player)
            &&& 0 < amount <= accounts[player].balance
            &&& bet@ == (Wager {
                id: before.next_wager,
                amount,
                owner: player,
                status: BetStatus::Active,
            })
            &&& after == (Table {
                wagers: before.wagers.insert(position, before.wagers[position].push(bet)),
                next_wager: (before.next_wager + 1) as u64,
                ..before
            })
            &&& accounts_after == accounts.insert(
                player,
                Account { balance: accounts[player].balance - amount, ..accounts[player] },
            )
        },
        Err(e) => {
            &&& after == before
            &&& accounts_after == accounts
            &&& match command_refusal(before, player) {
                Some(refusal) => e == refusal,
                None => match e {
                    BetError::InvalidPosition => !takes_wagers(position, before.phase),
                    BetError::TableFull => {
                        &&& takes_wagers(position, before.phase)
                        &&& before.next_wager == u64::MAX
                    },
                    BetError::UnknownAccount => {
                        &&& takes_wagers(position, before.phase)
                        &&& before.next_wager < u64::MAX
                        &&& !accounts.contains_key(player)
                    },
                    BetError::InvalidAmount => {
                        &&& takes_wagers(position, before.phase)
                        &&& before.next_wager < u64::MAX
                        &&& accounts.contains_key(player)
                        &&& amount == 0
                    },
                    BetError::NotEnoughMoney(name) => {
                        &&& takes_wagers(position, before.phase)
                        &&& before.next_wager < u64::MAX
                        &&& accounts.contains_key(player)
                        &&& amount > accounts[player].balance
                        &&& name@ == accounts[player].name
                    },
                    _ => false,
                },
            }
        },
    }
}

/// What [`CraplessCraps::withdraw_wager`] does: `withdrawn` is what it
/// returns for the table `before` and the accounts `accounts`, and `after`
/// and `accounts_after` are what it leaves.
///
/// The wagers of the player on the betting area leave the board, each
/// pushed, and their stakes are paid back. Nothing changes where the table
/// refuses the player's commands or the player has no wager there. Where
/// the stakes cannot be paid back, the wagers stay and the table halts.
pub open spec fn withdrawal(
    before: Table,
    accounts: Map<u64, Account>,
    player: u64,
    position: Position,
    withdrawn: Result<Vec<Settlement>, BetError>,
    after: Table,
    accounts_after: Map<u64, Account>,
) -> bool {
    let mine = before.wagers[position].filter(owned_by(player));
    let others = before.wagers[position].filter(not_owned_by(player));
    let owed = settle_area(position, mine, Outcome::Pushed, even_money());
    match withdrawn {
        Ok(records) => {
            &&& command_refusal(before, player) is None
            &&& mine.len() > 0
            &&& records@ == owed
            &&& paid(accounts, owed) == Some(accounts_after)
            &&& after == (Table { wagers: before.wagers.insert(position, others), ..before })
        },
        Err(e) => {
            &&& accounts_after == accounts
            &&& match command_refusal(before, player) {
                Some(refusal) => e == refusal && after == before,
                None => if mine.len() == 0 {
                    e == BetError::InvalidPosition && after == before
                } else {
                    &&& e == BetError::SettlementInvariantViolation
                    &&& paid(accounts, owed) is None
                    &&& after == (Table { halted: true, ..before })
                },
            }
        },
    }
}

/// What [`CraplessCraps::mark_ready`] does: `marked` is what it returns for
/// the table `before`, and `after` is what it leaves.
///
/// The player counts as ready from now on, and the answer is whether every
/// seated player does. Nothing changes where the table refuses the player's
/// commands.
pub open spec fn readiness(
    before: Table,
    player: u64,
    marked: Result<bool, BetError>,
    after: Table,
) -> bool {
    match command_refusal(before, player) {
        Some(refusal) => marked == Err::<bool, BetError>(refusal) && after == before,
        None => {
            &&& after == (Table {
                ready: if before.ready.contains(player) {
                    before.ready
                } else {
                    before.ready.push(player)
                },
                ..before
            })
            &&& marked == Ok::<bool, BetError>(after.all_ready())
        },
    }
}

/// The records of one roll over the first `upto` betting areas of the
/// layout: every wager on them, area by area and in the order in which the
/// wagers were placed, each settled as the rules decide for its area and
/// paid as the table's odds say.
pub open spec fn roll_records(table: Table, dice: Dice, upto: int) -> Seq<Settlement>
    decreases upto,
{
    if upto <= 0 {
        Seq::empty()
    } else {
        let position = position_at(upto - 1);
        roll_records(table, dice, upto - 1) + settle_area(
            position,
            table.wagers[position],
            outcome_of(position, table.phase, dice),
            table.odds.odds_at(position, dice.total()),
        )
    }
}

/// The wagers of one betting area after a roll: all of them carried where
/// the rules carry the area, none of them otherwise.
pub open spec fn area_after_roll(bets: Seq<Bet>, outcome: Outcome) -> Seq<Bet> {
    if outcome is Carried {
        bets.map_values(|bet: Bet| bet.after(Outcome::Carried))
    } else {
        Seq::empty()
    }
}

/// The board after a roll.
pub open spec fn wagers_after_roll(
    wagers: Map<Position, Seq<Bet>>,
    phase: TablePhase,
    dice: Dice,
) -> Map<Position, Seq<Bet>> {
    Map::new(
        |position: Position| true,
        |position: Position| area_after_roll(wagers[position], outcome_of(position, phase, dice)),
    )
}

/// The table after a roll that was settled: the board holds the wagers that
/// carried, the phase is the one that the rules give, and betting is open.
pub open spec fn table_after_roll(table: Table, dice: Dice) -> Table {
    Table {
        wagers: wagers_after_roll(table.wagers, table.phase, dice),
        phase: next_phase(table.phase, dice.total()),
        mode: GameState::Betting,
        ..table
    }
}

/// The cycle of a table, transition by transition: the mode and phase that
/// an event leads to, or nothing where the table does not take the event in
/// the mode it is in.
///
/// | mode    | event         | next mode | next phase          |
/// |---------|---------------|-----------|---------------------|
/// | Betting | BettingClosed | Rolling   | unchanged           |
/// | Rolling | Rolled        | Betting   | as the rules decide |
pub open spec fn transition(mode: GameState, phase: TablePhase, event: TableEvent) -> Option<
    (GameState, TablePhase),
> {
    match (mode, event) {
        (GameState::Betting, TableEvent::BettingClosed) => Some((GameState::Rolling, phase)),
        (GameState::Rolling, TableEvent::Rolled(roll)) => Some(
            (GameState::Betting, next_phase(phase, roll@.total())),
        ),
        (GameState::Betting, TableEvent::Rolled(_)) => None,
        (GameState::Rolling, TableEvent::BettingClosed) => None,
    }
}

/// The records that an event pays: those of the roll, or none.
pub open spec fn event_records(table: Table, event: TableEvent) -> Seq<Settlement> {
    match event {
        TableEvent::BettingClosed => Seq::empty(),
        TableEvent::Rolled(roll) => roll_records(table, roll@, POSITIONS as int),
    }
}

/// The table after an event that it took.
pub open spec fn table_after_event(table: Table, event: TableEvent) -> Table {
    match event {
        TableEvent::BettingClosed => Table {
            mode: GameState::Rolling,
            ready: Seq::empty(),
            ..table
        },
        TableEvent::Rolled(roll) => table_after_roll(table, roll@),
    }
}

/// What [`CraplessCraps::step`] does: `stepped` is what it returns for the
/// table `before` and the accounts `accounts`, and `after` and
/// `accounts_after` are what it leaves.
///
/// An event that the table takes moves it as [`transition`] says, and a
/// roll pays what its records owe. A halted table takes no event, and an
/// event that the table does not take in its mode changes nothing. A roll
/// that cannot be paid touches no account and no wager, and halts the
/// table.
pub open spec fn step_taken(
    before: Table,
    accounts: Map<u64, Account>,
    event: TableEvent,
    stepped: Result<Option<RollReport>, BetError>,
    after: Table,
    accounts_after: Map<u64, Account>,
) -> bool {
    let owed = event_records(before, event);
    match stepped {
        Ok(report) => {
            &&& !before.halted
            &&& transition(before.mode, before.phase, event) == Some((after.mode, after.phase))
            &&& paid(accounts, owed) == Some(accounts_after)
            &&& after == table_after_event(before, event)
            &&& match event {
                TableEvent::BettingClosed => report is None,
                TableEvent::Rolled(roll) => {
                    &&& report matches Some(report)
                    &&& report.total == roll@.total()
                    &&& report.phase == after.phase
                    &&& report.settled@ == owed
                },
            }
        },
        Err(e) => {
            &&& accounts_after == accounts
            &&& if before.halted {
                e == BetError::SettlementInvariantViolation && after == before
            } else if transition(before.mode, before.phase, event) is None {
                e == BetError::WrongMode && after == before
            } else {
                &&& e == BetError::SettlementInvariantViolation
                &&& paid(accounts, owed) is None
                &&& after == (Table { halted: true, ..before })
            }
        },
    }
}

/// What a departure decides for the wagers of the player who leaves.
pub open spec fn leave_outcome(policy: LeavePolicy) -> Outcome {
    match policy {
        LeavePolicy::Refund => Outcome::Pushed,
        LeavePolicy::Forfeit => Outcome::Lost,
    }
}

/// The records of a departure over the first `upto` betting areas of the
/// layout: the wagers of the player who leaves, area by area and in the
/// order in which they were placed, each settled as the table's policy
/// says.
pub open spec fn departure_records(table: Table, player: u64, upto: int) -> Seq<Settlement>
    decreases upto,
{
    if upto <= 0 {
        Seq::empty()
    } else {
        let position = position_at(upto - 1);
        departure_records(table, player, upto - 1) + settle_area(
            position,
            table.wagers[position].filter(owned_by(player)),
            leave_outcome(table.policy),
            even_money(),
        )
    }
}

/// The board without the wagers of `player`.
pub open spec fn wagers_without(wagers: Map<Position, Seq<Bet>>, player: u64) -> Map<
    Position,
    Seq<Bet>,
> {
    Map::new(
        |position: Position| true,
        |position: Position| wagers[position].filter(not_owned_by(player)),
    )
}

/// The players other than `player`.
pub open spec fn not_player(player: u64) -> spec_fn(u64) -> bool {
    |id: u64| id != player
}

/// The table after a seated player has left: their seat and their wagers
/// are gone, they are no longer counted as ready, and the table has halted
/// if what was owed to them could not be paid.
pub open spec fn table_after_departure(table: Table, player: u64, paid: bool) -> Table {
    Table {
        roster: table.roster.remove(table.roster.index_of(player)),
        wagers: wagers_without(table.wagers, player),
        ready: table.ready.filter(not_player(player)),
        halted: table.halted || !paid,
        ..table
    }
}

/// What [`CraplessCraps::remove_player`] does: `left` is what it returns
/// for the table `before` and the accounts `accounts`, and `after` and
/// `accounts_after` are what it leaves.
///
/// A seated player leaves with their wagers: each is pushed or lost as the
/// table's policy says, and what is owed is paid. Where it cannot be paid,
/// nothing is paid and the table halts; the player leaves all the same.
/// Nothing changes where the player has no seat.
pub open spec fn departure(
    before: Table,
    accounts: Map<u64, Account>,
    player: u64,
    left: Option<Departure>,
    after: Table,
    accounts_after: Map<u64, Account>,
) -> bool {
    let owed = departure_records(before, player, POSITIONS as int);
    match left {
        Some(departure) => {
            &&& before.roster.contains(player)
            &&& departure.settled@ == owed
            &&& departure.paid == paid(accounts, owed) is Some
            &&& accounts_after == if departure.paid {
                paid(accounts, owed)->0
            } else {
                accounts
            }
            &&& after == table_after_departure(before, player, departure.paid)
        },
        None => {
            &&& !before.roster.contains(player)
            &&& after == before
            &&& accounts_after == accounts
        },
    }
}

/// Every wager on the board of a well-formed table can still be settled.
pub proof fn lemma_wagers_are_live(table: Table)
    requires
        table.wf(),
    ensures
        forall|position: Position| all_live(#[trigger] table.wagers[position]),
{
    assert forall|position: Position| all_live(#[trigger] table.wagers[position]) by {
        assert(all_in_play(table.roster, table.wagers[position]));
        assert forall|i: int| 0 <= i < table.wagers[position].len() implies is_live(
            (#[trigger] table.wagers[position][i])@.status,
        ) by {
            assert(in_play(table.roster, table.wagers[position][i]));
        }
    }
}

/// Seating players in turn seats nobody twice, and seats everybody where
/// nobody asks twice and there is room for all.
pub proof fn lemma_seated_in_turn(players: Seq<u64>)
    ensures
        seated_in_turn(players).no_duplicates(),
        seated_in_turn(players).len() <= u32::MAX,
        seated_in_turn(players).len() <= players.len(),
        forall|id: u64| seated_in_turn(players).contains(id) ==> players.contains(id),
        players.no_duplicates() && players.len() <= u32::MAX ==> seated_in_turn(players) == players,
    decreases players.len(),
{
    if players.len() > 0 {
        let rest = players.drop_last();
        let last = players.last();
        lemma_seated_in_turn(rest);
        let roster = seated_in_turn(rest);
        assert forall|id: u64| seated_in_turn(players).contains(id) implies players.contains(
            id,
        ) by {
            let k = choose|k: int|
                0 <= k < seated_in_turn(players).len() && seated_in_turn(players)[k] == id;
            if k < roster.len() {
                assert(roster.contains(id));
                assert(rest.contains(id));
                let j = choose|j: int| 0 <= j < rest.len() && rest[j] == id;
                assert(players[j] == id);
            } else {
                assert(players[players.len() - 1] == id);
            }
        }
        if players.no_duplicates() && players.len() <= u32::MAX {
            assert(rest.no_duplicates());
            assert(roster == rest);
            if rest.contains(last) {
                let j = choose|j: int| 0 <= j < rest.len() && rest[j] == last;
                assert(players[j] == players[players.len() - 1]);
            }
            assert(rest.push(last) == players);
        }
    }
}

/// A table stays well formed when one more player sits down.
pub proof fn lemma_table_with_one_more(table: Table, player: u64)
    requires
        table.wf(),
        !table.roster.contains(player),
        table.roster.len() < u32::MAX,
    ensures
        (Table { roster: table.roster.push(player), ..table }).wf(),
{
    lemma_roster_push(table.roster, player);
    let more = table.roster.push(player);
    assert forall|position: Position|
        all_in_play(more, #[trigger] table.wagers[position]) by {
        assert(all_in_play(table.roster, table.wagers[position]));
        let bets = table.wagers[position];
        assert forall|i: int| 0 <= i < bets.len() implies in_play(
            more,
            #[trigger] bets[i],
        ) by {
            assert(in_play(table.roster, bets[i]));
        }
    }
}

/// A table stays well formed when a seated player says that they are done
/// betting.
pub proof fn lemma_table_with_ready(table: Table, player: u64)
    requires
        table.wf(),
        table.roster.contains(player),
        !table.ready.contains(player),
    ensures
        (Table { ready: table.ready.push(player), ..table }).wf(),
{
    let more = table.ready.push(player);
    assert forall|i: int| 0 <= i < more.len() implies table.roster.contains(#[trigger] more[i]) by {
        if i < table.ready.len() {
            assert(table.roster.contains(table.ready[i]));
        }
    }
    assert forall|i: int, j: int|
        0 <= i < more.len() && 0 <= j < more.len() && i != j implies more[i] != more[j] by {
        if i < table.ready.len() && j < table.ready.len() {
        } else if i < table.ready.len() {
            assert(table.ready.contains(table.ready[i]));
        } else {
            assert(table.ready.contains(table.ready[j]));
        }
    }
}

/// A table stays well formed when nobody counts as ready any more.
pub proof fn lemma_table_with_nobody_ready(table: Table)
    requires
        table.wf(),
    ensures
        (Table { ready: Seq::empty(), ..table }).wf(),
{
}

/// A table stays well formed when its phase, its mode and its halt change,
/// as long as the point can be a point.
pub proof fn lemma_table_in_another_state(
    table: Table,
    phase: TablePhase,
    mode: GameState,
    halted: bool,
)
    requires
        table.wf(),
        phase.wf(),
    ensures
        (Table { phase, mode, halted, ..table }).wf(),
{
    let after = Table { phase, mode, halted, ..table };
    assert forall|position: Position|
        all_in_play(after.roster, #[trigger] after.wagers[position]) by {
        assert(all_in_play(table.roster, table.wagers[position]));
    }
    assert forall|position: Position|
        numbered_below(after.next_wager, #[trigger] after.wagers[position]) by {
        assert(numbered_below(table.next_wager, table.wagers[position]));
    }
}

/// A table stays well formed when its board is cleared.
pub proof fn lemma_table_with_empty_board(table: Table)
    requires
        table.wf(),
    ensures
        (Table { wagers: no_wagers(), ..table }).wf(),
{
}

/// A table stays well formed when a wager of a seated player goes on the
/// board under the next number.
pub proof fn lemma_table_after_placing(table: Table, position: Position, bet: Bet)
    requires
        table.wf(),
        in_play(table.roster, bet),
        bet@.id == table.next_wager,
        table.next_wager < u64::MAX,
    ensures
        (Table { next_wager: (table.next_wager + 1) as u64, ..table }).wf(),
        (Table {
            wagers: table.wagers.insert(position, table.wagers[position].push(bet)),
            next_wager: (table.next_wager + 1) as u64,
            ..table
        }).wf(),
{
    let next = (table.next_wager + 1) as u64;
    let wagers = table.wagers.insert(position, table.wagers[position].push(bet));
    assert forall|other: Position| numbered_below(next, #[trigger] table.wagers[other]) by {
        assert(numbered_below(table.next_wager, table.wagers[other]));
    }
    assert forall|other: Position| all_in_play(table.roster, #[trigger] wagers[other]) by {
        assert(all_in_play(table.roster, table.wagers[other]));
        if other == position {
            lemma_in_play_push(table.roster, table.wagers[position], bet);
        }
    }
    lemma_numbers_after_placing(table.wagers, table.next_wager, position, bet);
}

/// A table stays well formed when the wagers of a player leave one betting
/// area.
pub proof fn lemma_table_after_withdrawal(table: Table, position: Position, player: u64)
    requires
        table.wf(),
    ensures
        (Table {
            wagers: table.wagers.insert(
                position,
                table.wagers[position].filter(not_owned_by(player)),
            ),
            ..table
        }).wf(),
{
    let others = table.wagers[position].filter(not_owned_by(player));
    let wagers = table.wagers.insert(position, others);
    assert forall|other: Position| all_in_play(table.roster, #[trigger] wagers[other]) by {
        assert(all_in_play(table.roster, table.wagers[other]));
        if other == position {
            lemma_in_play_filter(table.roster, table.wagers[position], not_owned_by(player));
        }
    }
    assert forall|other: Position| drawn_from(#[trigger] wagers[other], table.wagers[other]) by {
        lemma_numbers_differ_within(table.wagers, other);
        if other == position {
            lemma_drawn_from_filter(table.wagers[position], not_owned_by(player));
        } else {
            lemma_drawn_from_itself(table.wagers[other]);
        }
    }
    lemma_numbers_still_differ(table.wagers, wagers, table.next_wager);
}

/// A table stays well formed when the wagers of a player leave the board.
pub proof fn lemma_table_without_wagers(table: Table, player: u64)
    requires
        table.wf(),
    ensures
        (Table { wagers: wagers_without(table.wagers, player), ..table }).wf(),
{
    let wagers = wagers_without(table.wagers, player);
    assert forall|position: Position| all_in_play(table.roster, #[trigger] wagers[position]) by {
        assert(all_in_play(table.roster, table.wagers[position]));
        lemma_in_play_filter(table.roster, table.wagers[position], not_owned_by(player));
    }
    assert forall|position: Position|
        drawn_from(#[trigger] wagers[position], table.wagers[position]) by {
        lemma_numbers_differ_within(table.wagers, position);
        lemma_drawn_from_filter(table.wagers[position], not_owned_by(player));
    }
    lemma_numbers_still_differ(table.wagers, wagers, table.next_wager);
}

/// A table stays well formed when a player stops counting as ready.
pub proof fn lemma_table_without_ready(table: Table, player: u64)
    requires
        table.wf(),
    ensures
        (Table { ready: table.ready.filter(not_player(player)), ..table }).wf(),
{
    let kept = table.ready.filter(not_player(player));
    lemma_filter_no_duplicates(table.ready, not_player(player));
    assert forall|i: int| 0 <= i < kept.len() implies table.roster.contains(#[trigger] kept[i]) by {
        assert(table.ready.contains(kept[i]));
        let j = choose|j: int| 0 <= j < table.ready.len() && table.ready[j] == kept[i];
        assert(table.roster.contains(table.ready[j]));
    }
}

/// The players who stay after a departure were seated before it, and the
/// one who left is not among them.
pub proof fn lemma_departure_keeps_the_others(table: Table, player: u64)
    requires
        table.wf(),
        table.roster.contains(player),
    ensures
        ({
            let roster = table.roster.remove(table.roster.index_of(player));
            &&& roster.len() == table.roster.len() - 1
            &&& roster.no_duplicates()
            &&& !roster.contains(player)
            &&& forall|id: u64| roster.contains(id) ==> table.roster.contains(id)
            &&& forall|id: u64| table.roster.contains(id) && id != player ==> roster.contains(id)
        }),
{
    let seat = table.roster.index_of(player);
    lemma_roster_without(table.roster, seat);
}

/// A table stays well formed when a seated player leaves.
pub proof fn lemma_table_after_departure(table: Table, player: u64, paid: bool)
    requires
        table.wf(),
        table.roster.contains(player),
    ensures
        table_after_departure(table, player, paid).wf(),
        !table_after_departure(table, player, paid).roster.contains(player),
        table_after_departure(table, player, paid).roster.len() == table.roster.len() - 1,
{
    let seat = table.roster.index_of(player);
    let after = table_after_departure(table, player, paid);
    lemma_roster_without(table.roster, seat);
    assert forall|position: Position|
        all_in_play(after.roster, #[trigger] after.wagers[position]) by {
        assert(all_in_play(table.roster, table.wagers[position]));
        lemma_in_play_without(table.roster, seat, table.wagers[position]);
    }
    assert forall|position: Position|
        drawn_from(#[trigger] after.wagers[position], table.wagers[position]) by {
        lemma_numbers_differ_within(table.wagers, position);
        lemma_drawn_from_filter(table.wagers[position], not_owned_by(player));
    }
    lemma_numbers_still_differ(table.wagers, after.wagers, table.next_wager);
    lemma_ready_without(table.roster, seat, table.ready);
}

/// A table stays well formed through a roll.
pub proof fn lemma_table_after_roll(table: Table, dice: Dice)
    requires
        table.wf(),
    ensures
        (Table { wagers: wagers_after_roll(table.wagers, table.phase, dice), ..table }).wf(),
        table_after_roll(table, dice).wf(),
{
    let after = wagers_after_roll(table.wagers, table.phase, dice);
    assert forall|position: Position| all_in_play(table.roster, #[trigger] after[position]) by {
        assert(all_in_play(table.roster, table.wagers[position]));
        lemma_in_play_carried(table.roster, table.wagers[position]);
    }
    assert forall|position: Position|
        drawn_from(#[trigger] after[position], table.wagers[position]) by {
        lemma_numbers_differ_within(table.wagers, position);
        lemma_drawn_from_carried(table.wagers[position]);
    }
    lemma_numbers_still_differ(table.wagers, after, table.next_wager);
    let swept = Table { wagers: after, ..table };
    lemma_table_in_another_state(
        swept,
        next_phase(table.phase, dice.total()),
        GameState::Betting,
        table.halted,
    );
}

/// How many wagers stand on the first `upto` betting areas of the layout.
pub open spec fn wagers_standing(table: Table, upto: int) -> int
    decreases upto,
{
    if upto <= 0 {
        0
    } else {
        wagers_standing(table, upto - 1) + table.wagers[position_at(upto - 1)].len()
    }
}

/// The records of a roll over the betting areas up to one hold the record
/// of every wager on those areas.
proof fn lemma_roll_records_hold(
    table: Table,
    dice: Dice,
    upto: int,
    position: Position,
    place: int,
)
    requires
        0 <= upto <= POSITIONS,
        index_of(position) < upto,
        0 <= place < table.wagers[position].len(),
    ensures
        roll_records(table, dice, upto).contains(
            settlement_of(
                position,
                table.wagers[position][place],
                outcome_of(position, table.phase, dice),
                table.odds.odds_at(position, dice.total()),
            ),
        ),
    decreases upto,
{
    lemma_layout_is_one_to_one();
    let wanted = settlement_of(
        position,
        table.wagers[position][place],
        outcome_of(position, table.phase, dice),
        table.odds.odds_at(position, dice.total()),
    );
    let here = position_at(upto - 1);
    let before = roll_records(table, dice, upto - 1);
    let area = settle_area(
        here,
        table.wagers[here],
        outcome_of(here, table.phase, dice),
        table.odds.odds_at(here, dice.total()),
    );
    let all = roll_records(table, dice, upto);
    assert(all == before + area);
    if here == position {
        assert(area[place] == wanted);
        assert(all[before.len() + place] == wanted);
    } else {
        lemma_roll_records_hold(table, dice, upto - 1, position, place);
        let k = choose|k: int| 0 <= k < before.len() && before[k] == wanted;
        assert(all[k] == wanted);
    }
}

/// The records of a roll over the betting areas up to one are as many as
/// the wagers on those areas.
proof fn lemma_roll_records_count(table: Table, dice: Dice, upto: int)
    requires
        0 <= upto <= POSITIONS,
    ensures
        roll_records(table, dice, upto).len() == wagers_standing(table, upto),
    decreases upto,
{
    if upto > 0 {
        lemma_roll_records_count(table, dice, upto - 1);
    }
}

/// A roll drops no wager and settles none twice: its records are as many as
/// the wagers that stand on the board, and every wager has its record, with
/// what the rules decide for its betting area.
pub proof fn lemma_every_wager_is_settled_once(table: Table, dice: Dice)
    ensures
        roll_records(table, dice, POSITIONS as int).len() == wagers_standing(
            table,
            POSITIONS as int,
        ),
        forall|position: Position, place: int|
            0 <= place < table.wagers[position].len() ==> roll_records(
                table,
                dice,
                POSITIONS as int,
            ).contains(
                settlement_of(
                    position,
                    #[trigger] table.wagers[position][place],
                    outcome_of(position, table.phase, dice),
                    table.odds.odds_at(position, dice.total()),
                ),
            ),
{
    lemma_layout_is_one_to_one();
    lemma_roll_records_count(table, dice, POSITIONS as int);
    assert forall|position: Position, place: int|
        0 <= place < table.wagers[position].len() implies roll_records(
        table,
        dice,
        POSITIONS as int,
    ).contains(
        settlement_of(
            position,
            #[trigger] table.wagers[position][place],
            outcome_of(position, table.phase, dice),
            table.odds.odds_at(position, dice.total()),
        ),
    ) by {
        lemma_roll_records_hold(table, dice, POSITIONS as int, position, place);
    }
}

/// After a roll the board holds the wagers that carried, each still in
/// play, and no others: a wager that was won, lost or pushed is gone and
/// cannot be settled again.
pub proof fn lemma_settled_wagers_leave_the_board(table: Table, dice: Dice, position: Position)
    ensures
        ({
            let after = table_after_roll(table, dice).wagers[position];
            let outcome = outcome_of(position, table.phase, dice);
            &&& outcome != Outcome::Carried ==> after.len() == 0
            &&& outcome == Outcome::Carried ==> after.len() == table.wagers[position].len()
            &&& forall|i: int|
                0 <= i < after.len() ==> (#[trigger] after[i])@ == (Wager {
                    status: BetStatus::Carried,
                    ..table.wagers[position][i]@
                })
        }),
{
    let after = table_after_roll(table, dice).wagers[position];
    assert forall|i: int| 0 <= i < after.len() implies (#[trigger] after[i])@ == (Wager {
        status: BetStatus::Carried,
        ..table.wagers[position][i]@
    }) by {
        table.wagers[position][i].lemma_after(Outcome::Carried);
    }
}

/// Where the board holds a single wager, the records of a roll over the
/// betting areas up to one hold its record once its area is among them.
proof fn lemma_roll_records_upto(table: Table, dice: Dice, position: Position, upto: int)
    requires
        0 <= upto <= POSITIONS,
        table.wagers[position].len() == 1,
        forall|other: Position| other != position ==> (#[trigger] table.wagers[other]).len() == 0,
    ensures
        roll_records(table, dice, upto) == if index_of(position) < upto {
            seq![
                settlement_of(
                    position,
                    table.wagers[position][0],
                    outcome_of(position, table.phase, dice),
                    table.odds.odds_at(position, dice.total()),
                ),
            ]
        } else {
            Seq::<Settlement>::empty()
        },
    decreases upto,
{
    lemma_layout_is_one_to_one();
    if upto > 0 {
        lemma_roll_records_upto(table, dice, position, upto - 1);
        let here = position_at(upto - 1);
        let area = settle_area(
            here,
            table.wagers[here],
            outcome_of(here, table.phase, dice),
            table.odds.odds_at(here, dice.total()),
        );
        if here == position {
            assert(area == seq![
                settlement_of(
                    position,
                    table.wagers[position][0],
                    outcome_of(position, table.phase, dice),
                    table.odds.odds_at(position, dice.total()),
                ),
            ]);
        } else {
            assert(area == Seq::<Settlement>::empty());
        }
    }
}

/// Where the board holds a single wager, the records of a roll are the
/// record of that wager.
pub proof fn lemma_roll_records_of_one(table: Table, dice: Dice, position: Position)
    requires
        table.wagers[position].len() == 1,
        forall|other: Position| other != position ==> (#[trigger] table.wagers[other]).len() == 0,
    ensures
        roll_records(table, dice, POSITIONS as int) == seq![
            settlement_of(
                position,
                table.wagers[position][0],
                outcome_of(position, table.phase, dice),
                table.odds.odds_at(position, dice.total()),
            ),
        ],
{
    lemma_layout_is_one_to_one();
    lemma_roll_records_upto(table, dice, position, POSITIONS as int);
}

/// Where the board holds a single wager, a roll moves the balance of its
/// owner by what the outcome credits, and no other balance: by the stake
/// and the winnings where the wager won, by nothing where it lost or
/// carried. The roll cannot be paid where the owner has no account or the
/// balance would pass `i32::MAX`.
pub proof fn lemma_roll_pays_the_single_wager(
    table: Table,
    accounts: Map<u64, Account>,
    dice: Dice,
    position: Position,
)
    requires
        table.wagers[position].len() == 1,
        forall|other: Position| other != position ==> (#[trigger] table.wagers[other]).len() == 0,
    ensures
        ({
            let bet = table.wagers[position][0];
            let record = settlement_of(
                position,
                bet,
                outcome_of(position, table.phase, dice),
                table.odds.odds_at(position, dice.total()),
            );
            let owner = bet@.owner;
            paid(accounts, roll_records(table, dice, POSITIONS as int)) == if record.credit == 0 {
                Some(accounts)
            } else if !accounts.contains_key(owner) || accounts[owner].balance + record.credit
                > i32::MAX {
                None
            } else {
                Some(
                    accounts.insert(
                        owner,
                        Account {
                            balance: accounts[owner].balance + record.credit,
                            ..accounts[owner]
                        },
                    ),
                )
            }
        }),
{
    lemma_roll_records_of_one(table, dice, position);
    let records = roll_records(table, dice, POSITIONS as int);
    assert(records.drop_last() == Seq::<Settlement>::empty());
    assert(paid(accounts, records.drop_last()) == Some(accounts));
}

} // verus!
