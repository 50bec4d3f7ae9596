//! The crapless-craps table: a roster of seated players, a board of wagers
//! and the cycle of betting and rolling that settles them.

use crate::bet::{is_live, Bet, BetError, Outcome};
use crate::board::{not_owned_by, owned_by, Board};
use crate::ledger::{paid, Directory, Settlement};
use crate::odds::{PayTable, Ratio};
use crate::position::{index_of, lemma_layout_is_one_to_one, position_at, Position, POSITIONS};
use crate::rules::{
    is_open, is_point, next_phase, outcome_of, resolve, Resolution, Roll, TablePhase,
};
use crate::table::{
    all_in_play, all_live, command_refusal, departure, departure_records, even_money, fresh_table,
    in_play, leave_outcome, lemma_table_after_departure, lemma_table_after_placing,
    lemma_table_after_roll, lemma_table_after_withdrawal, lemma_table_in_another_state,
    lemma_table_with_empty_board, lemma_table_with_nobody_ready, lemma_table_with_one_more,
    lemma_table_with_ready, lemma_table_without_ready, lemma_table_without_wagers,
    lemma_wagers_are_live, not_player, placement, readiness, roll_records, seated_in_turn,
    settle_area, settlement_of, step_taken, table_after_roll, wagers_after_roll, wagers_without,
    withdrawal, Table,
};
use crate::upkeep::{lemma_filter_no_duplicates, lemma_roster_without};
use vstd::prelude::*;

verus! {

/// What a table is doing: taking wagers, or waiting for the dice.
#[derive(Clone, Copy, Debug, PartialEq, Eq, Structural)]
pub enum GameState {
    Rolling,
    Betting,
}

/// What becomes of the wagers of a player who leaves the table.
#[derive(Clone, Copy, Debug, PartialEq, Eq, Structural)]
pub enum LeavePolicy {
    /// The stakes go back to the player: the wagers are pushed.
    Refund,
    /// The stakes stay with the house: the wagers are lost.
    Forfeit,
}

/// The state of play at a table: the board, the phase and the mode.
pub struct CraplessCrapsGameState {
    board: Board,
    phase: TablePhase,
    state: GameState,
}

impl CraplessCrapsGameState {
    /// The wagers on every betting area.
    pub closed spec fn wagers(&self) -> Map<Position, Seq<Bet>> {
        self.board.layout()
    }

    /// Whether a point is on, and which.
    pub closed spec fn phase(&self) -> TablePhase {
        self.phase
    }

    /// Whether the table is taking wagers or waiting for the dice.
    pub closed spec fn mode(&self) -> GameState {
        self.state
    }

    /// Play begins with an empty board, no point, and betting open.
    pub fn new() -> (state: CraplessCrapsGameState)
        ensures
            state.phase() == TablePhase::ComeOut,
            state.mode() == GameState::Betting,
            forall|position: Position| #[trigger] state.wagers()[position] == Seq::<Bet>::empty(),
            forall|position: Position| state.wagers().contains_key(position),
    {
        CraplessCrapsGameState {
            state: GameState::Betting,
            board: Board::new(),
            phase: TablePhase::ComeOut,
        }
    }

    /// Puts the point on, at `point`.
    pub fn set_point(&mut self, point: u8)
        requires
            is_point(point as int),
        ensures
            final(self).phase() == TablePhase::PointOn(point),
            final(self).mode() == old(self).mode(),
            final(self).wagers() == old(self).wagers(),
        no_unwind
    {
        self.phase = TablePhase::PointOn(point);
    }

    /// Takes the point off: the next roll is a come-out roll.
    pub fn clear_point(&mut self)
        ensures
            final(self).phase() == TablePhase::ComeOut,
            final(self).mode() == old(self).mode(),
            final(self).wagers() == old(self).wagers(),
        no_unwind
    {
        self.phase = TablePhase::ComeOut;
    }

    /// The point, if one is on.
    pub fn point(&self) -> (point: Option<u8>)
        ensures
            point == match self.phase() {
                TablePhase::ComeOut => None,
                TablePhase::PointOn(point) => Some(point),
            },
    {
        self.phase.point()
    }

    /// Whether the next roll is a come-out roll: whether no point is on.
    pub fn is_come_out_roll(&self) -> (yes: bool)
        ensures
            yes <==> self.phase() is ComeOut,
    {
        self.phase.is_come_out()
    }

    /// Whether the table is taking wagers or waiting for the dice.
    pub fn state(&self) -> (state: GameState)
        ensures
            state == self.mode(),
    {
        self.state
    }

    /// The wagers on `position`, or nothing where it holds none.
    pub fn get_bet(&self, position: Position) -> (found: Option<&Vec<Bet>>)
        ensures
            match found {
                Some(bets) => bets@ == self.wagers()[position] && bets@.len() > 0,
                None => self.wagers()[position].len() == 0,
            },
    {
        self.board.get_bet(position)
    }
}

/// What moves a table from one mode to the other.
#[derive(Clone, Copy, Debug)]
pub enum TableEvent {
    /// The betting window has closed.
    BettingClosed,
    /// The dice have been thrown.
    Rolled(Roll),
}

/// What a roll did at a table.
#[derive(Debug)]
pub struct RollReport {
    /// What the dice added up to.
    pub total: u8,
    /// The phase that the roll left.
    pub phase: TablePhase,
    /// Every wager that stood on the board, with what the roll decided for
    /// it and what was paid.
    pub settled: Vec<Settlement>,
}

/// What a departure did at a table.
#[derive(Debug)]
pub struct Departure {
    /// The wagers of the player who left, each pushed or lost as the table's
    /// policy says.
    pub settled: Vec<Settlement>,
    /// Whether what was owed was paid. Where it was not, nothing was paid
    /// and the table has halted.
    pub paid: bool,
}

/// A crapless-craps table.
pub struct CraplessCraps {
    game_id: u32,
    game_state: CraplessCrapsGameState,
    players: Vec<u64>,
    ready: Vec<u64>,
    odds: PayTable,
    policy: LeavePolicy,
    halted: bool,
    next_wager: u64,
}

impl View for CraplessCraps {
    type V = Table;

    closed spec fn view(&self) -> Table {
        Table {
            id: self.game_id,
            roster: self.players@,
            wagers: self.game_state.wagers(),
            phase: self.game_state.phase(),
            mode: self.game_state.mode(),
            ready: self.ready@,
            halted: self.halted,
            next_wager: self.next_wager,
            policy: self.policy,
            odds: self.odds,
        }
    }
}

impl CraplessCraps {
    /// See [`Table::wf`]. Every table is well formed, at all times.
    #[verifier::type_invariant]
    pub open spec fn wf(&self) -> bool {
        self@.wf()
    }

    /// A table with `players` seated in turn, under the usual pay table. A
    /// player who leaves gets the stakes of their wagers back.
    pub fn new(game_id: u32, players: Vec<u64>) -> (table: CraplessCraps)
        ensures
            table.wf(),
            table@ == fresh_table(
                game_id,
                seated_in_turn(players@),
                LeavePolicy::Refund,
                table@.odds,
            ),
            forall|position: Position, total: int|
                2 <= total <= 12 ==> #[trigger] table@.odds.odds_at(position, total)
                    == crate::odds::standard_odds(position, total),
    {
        CraplessCraps::with_rules(game_id, players, LeavePolicy::Refund, PayTable::standard())
    }

    /// A table with `players` seated in turn, under the rules given: see
    /// [`seated_in_turn`].
    pub fn with_rules(
        game_id: u32,
        players: Vec<u64>,
        policy: LeavePolicy,
        odds: PayTable,
    ) -> (table: CraplessCraps)
        ensures
            table.wf(),
            table@ == fresh_table(game_id, seated_in_turn(players@), policy, odds),
    {
        let mut table = CraplessCraps {
            game_id,
            game_state: CraplessCrapsGameState::new(),
            players: Vec::new(),
            ready: Vec::new(),
            odds,
            policy,
            halted: false,
            next_wager: 1,
        };
        proof {
            assert(table@.wagers == fresh_table(game_id, Seq::empty(), policy, odds).wagers);
            assert(players@.take(0) == Seq::<u64>::empty());
        }
        let mut index: usize = 0;
        while index < players.len()
            invariant
                index <= players.len(),
                table@ == fresh_table(
                    game_id,
                    seated_in_turn(players@.take(index as int)),
                    policy,
                    odds,
                ),
            decreases players.len() - index,
        {
            proof {
                assert(players@.take(index + 1).drop_last() == players@.take(index as int));
            }
            let _ = table.add_player(players[index]);
            index += 1;
        }
        proof {
            assert(players@.take(index as int) == players@);
            use_type_invariant(&table);
        }
        table
    }

    /// The number that the table goes by.
    pub fn game_id(&self) -> (id: u32)
        ensures
            id == self@.id,
    {
        self.game_id
    }

    /// The name of the game that is played at the table.
    pub fn game_name(&self) -> (name: &'static str)
        ensures
            name@ == "Crapless"@,
    {
        "Crapless"
    }

    /// The state of play: board, phase and mode.
    pub fn game_state(&self) -> (state: &CraplessCrapsGameState)
        ensures
            state.wagers() == self@.wagers,
            state.phase() == self@.phase,
            state.mode() == self@.mode,
    {
        &self.game_state
    }

    /// Whether a settlement has failed at this table. A halted table takes
    /// no wagers and rolls no dice.
    pub fn is_halted(&self) -> (halted: bool)
        ensures
            halted == self@.halted,
    {
        self.halted
    }

    /// Whether `player` has a seat.
    pub fn has_player(&self, player: u64) -> (seated: bool)
        ensures
            seated == self@.roster.contains(player),
    {
        let mut index: usize = 0;
        while index < self.players.len()
            invariant
                index <= self.players.len(),
                forall|i: int| 0 <= i < index ==> self.players@[i] != player,
            decreases self.players.len() - index,
        {
            if self.players[index] == player {
                return true;
            }
            index += 1;
        }
        false
    }

    /// Whether anyone has a seat.
    pub fn has_players(&self) -> (any: bool)
        ensures
            any == (self@.roster.len() > 0),
    {
        !self.players.is_empty()
    }

    /// How many players are seated.
    pub fn player_count(&self) -> (count: u32)
        ensures
            count == self@.roster.len(),
    {
        proof {
            use_type_invariant(self);
        }
        self.players.len() as u32
    }

    /// Seats `player`, unless they are seated already or the roster cannot
    /// grow.
    pub fn add_player(&mut self, player: u64) -> (seated: bool)
        ensures
            final(self).wf(),
            seated <==> !old(self)@.roster.contains(player) && old(self)@.roster.len() < u32::MAX,
            final(self)@ == if seated {
                Table { roster: old(self)@.roster.push(player), ..old(self)@ }
            } else {
                old(self)@
            },
    {
        proof {
            use_type_invariant(&*self);
        }
        if self.players.len() >= u32::MAX as usize || self.has_player(player) {
            return false;
        }
        let players = with_one_more(&self.players, player);
        proof {
            lemma_table_with_one_more(self@, player);
        }
        self.players = players;
        true
    }

    /// Takes `player` from the table, with their wagers: each is pushed or
    /// lost as the table's policy says, and what is owed is paid into the
    /// player's account. Returns nothing, and changes nothing, where the
    /// player has no seat.
    ///
    /// Where what is owed cannot be paid, nothing is paid: the player and
    /// their wagers leave all the same, and the table halts.
    pub fn remove_player(&mut self, directory: &mut Directory, player: u64) -> (left: Option<
        Departure,
    >)
        ensures
            final(self).wf(),
            final(directory).wf(),
            final(directory).issued() == old(directory).issued(),
            departure(
                old(self)@,
                old(directory)@,
                player,
                left,
                final(self)@,
                final(directory)@,
            ),
            left is Some ==> !final(self)@.roster.contains(player) && final(self)@.roster.len()
                == old(self)@.roster.len() - 1,
    {
        proof {
            use_type_invariant(&*self);
            use_type_invariant(&*directory);
        }
        let seat = match self.seat_of(player) {
            Some(seat) => seat,
            None => {
                return None;
            },
        };
        let records = self.settle_departure(player);
        let paid = directory.settle_all(&records).is_ok();
        let ghost before = self@;
        proof {
            lemma_roster_without(before.roster, seat as int);
            lemma_table_without_ready(before, player);
        }
        self.forget_ready(player);
        proof {
            lemma_table_with_empty_board(self@);
            lemma_table_without_wagers(self@, player);
        }
        let mut board = Board::new();
        core::mem::swap(&mut board, &mut self.game_state.board);
        clear_wagers_of(&mut board, player);
        self.game_state.board = board;
        let players = without_seat(&self.players, seat);
        proof {
            lemma_table_after_departure(before, player, true);
            lemma_table_after_departure(before, player, false);
            assert(self@.wagers == wagers_without(before.wagers, player));
        }
        self.players = players;
        if !paid {
            self.halted = true;
        }
        Some(Departure { settled: records, paid })
    }

    /// Places a wager of `amount` for `player` on `position`: the stake
    /// leaves the player's account and the wager goes on the board, behind
    /// those that stand there. A command that is turned down changes
    /// nothing.
    pub fn place_wager(
        &mut self,
        directory: &mut Directory,
        player: u64,
        amount: u32,
        position: Position,
    ) -> (placed: Result<Bet, BetError>)
        ensures
            final(self).wf(),
            final(directory).wf(),
            final(directory).issued() == old(directory).issued(),
            placement(
                old(self)@,
                old(directory)@,
                player,
                amount,
                position,
                placed,
                final(self)@,
                final(directory)@,
            ),
    {
        proof {
            use_type_invariant(&*self);
            use_type_invariant(&*directory);
        }
        if let Some(refusal) = self.refuse(player) {
            return Err(refusal);
        }
        if !is_open(position, self.game_state.phase) {
            return Err(BetError::InvalidPosition);
        }
        if self.next_wager == u64::MAX {
            return Err(BetError::TableFull);
        }
        let bet = match directory.stake(player, amount) {
            Ok(bet) => bet.numbered(self.next_wager),
            Err(e) => {
                return Err(e);
            },
        };
        let ghost before = self@;
        proof {
            lemma_table_after_placing(before, position, bet);
            lemma_table_with_empty_board(
                Table { next_wager: (before.next_wager + 1) as u64, ..before },
            );
        }
        self.next_wager = self.next_wager + 1;
        let mut board = Board::new();
        core::mem::swap(&mut board, &mut self.game_state.board);
        board.add_bet(position, bet);
        proof {
            assert(board.layout() == before.wagers.insert(
                position,
                before.wagers[position].push(bet),
            ));
        }
        self.game_state.board = board;
        Ok(bet)
    }

    /// Takes the wagers of `player` off `position` and pays their stakes
    /// back, each wager pushed. The records of the wagers withdrawn are
    /// returned, in the order in which the wagers were placed.
    ///
    /// A command that is turned down changes nothing, with one exception:
    /// where the stakes cannot be paid back, the wagers stay on the board and
    /// the table halts.
    pub fn withdraw_wager(
        &mut self,
        directory: &mut Directory,
        player: u64,
        position: Position,
    ) -> (withdrawn: Result<Vec<Settlement>, BetError>)
        ensures
            final(self).wf(),
            final(directory).wf(),
            final(directory).issued() == old(directory).issued(),
            withdrawal(
                old(self)@,
                old(directory)@,
                player,
                position,
                withdrawn,
                final(self)@,
                final(directory)@,
            ),
    {
        proof {
            use_type_invariant(&*self);
            use_type_invariant(&*directory);
        }
        if let Some(refusal) = self.refuse(player) {
            return Err(refusal);
        }
        let mut records: Vec<Settlement> = Vec::new();
        match self.game_state.board.get_bet(position) {
            Some(bets) => {
                proof {
                    lemma_wagers_are_live(self@);
                    assert(all_live(self@.wagers[position]));
                }
                settle_owned(position, bets, player, Outcome::Pushed, &mut records);
            },
            None => {
                proof {
                    broadcast use Seq::lemma_filter_len;

                    assert(self@.wagers[position].filter(owned_by(player)).len() == 0);
                }
            },
        }
        if records.len() == 0 {
            return Err(BetError::InvalidPosition);
        }
        let ghost before = self@;
        match directory.settle_all(&records) {
            Ok(()) => {},
            Err(_) => {
                proof {
                    lemma_table_in_another_state(before, before.phase, before.mode, true);
                }
                self.halted = true;
                return Err(BetError::SettlementInvariantViolation);
            },
        }
        proof {
            lemma_table_with_empty_board(before);
            lemma_table_after_withdrawal(before, position, player);
        }
        let mut board = Board::new();
        core::mem::swap(&mut board, &mut self.game_state.board);
        let _ = board.withdraw(position, player);
        proof {
            assert(board.layout() == before.wagers.insert(
                position,
                before.wagers[position].filter(not_owned_by(player)),
            ));
        }
        self.game_state.board = board;
        Ok(records)
    }

    /// Whether `player` has said that they are done betting.
    pub fn is_ready(&self, player: u64) -> (ready: bool)
        ensures
            ready == self@.ready.contains(player),
    {
        let mut index: usize = 0;
        while index < self.ready.len()
            invariant
                index <= self.ready.len(),
                forall|i: int| 0 <= i < index ==> self.ready@[i] != player,
            decreases self.ready.len() - index,
        {
            if self.ready[index] == player {
                return true;
            }
            index += 1;
        }
        false
    }

    /// Whether every seated player has said that they are done betting: the
    /// sign that the betting can close before its time is up.
    pub fn all_ready(&self) -> (all: bool)
        ensures
            all == self@.all_ready(),
    {
        let mut index: usize = 0;
        while index < self.players.len()
            invariant
                index <= self.players.len(),
                forall|i: int| 0 <= i < index ==> self@.ready.contains(#[trigger] self@.roster[i]),
            decreases self.players.len() - index,
        {
            if !self.is_ready(self.players[index]) {
                assert(!self@.ready.contains(self@.roster[index as int]));
                return false;
            }
            index += 1;
        }
        true
    }

    /// Notes that `player` is done betting, and tells whether every seated
    /// player is: see [`readiness`].
    pub fn mark_ready(&mut self, player: u64) -> (marked: Result<bool, BetError>)
        ensures
            final(self).wf(),
            readiness(old(self)@, player, marked, final(self)@),
    {
        proof {
            use_type_invariant(&*self);
        }
        if let Some(refusal) = self.refuse(player) {
            return Err(refusal);
        }
        if !self.is_ready(player) {
            proof {
                lemma_table_with_nobody_ready(self@);
                lemma_table_with_ready(self@, player);
            }
            let mut ready: Vec<u64> = Vec::new();
            core::mem::swap(&mut ready, &mut self.ready);
            ready.push(player);
            self.ready = ready;
        }
        Ok(self.all_ready())
    }

    /// Closes the betting: the table now waits for the dice, and nobody
    /// counts as ready any more.
    pub fn close_betting(&mut self) -> (closed: Result<(), BetError>)
        ensures
            final(self).wf(),
            match closed {
                Ok(()) => {
                    &&& !old(self)@.halted
                    &&& old(self)@.mode == GameState::Betting
                    &&& final(self)@ == (Table {
                        mode: GameState::Rolling,
                        ready: Seq::empty(),
                        ..old(self)@
                    })
                },
                Err(e) => {
                    &&& final(self)@ == old(self)@
                    &&& e == if old(self)@.halted {
                        BetError::SettlementInvariantViolation
                    } else {
                        BetError::WrongMode
                    }
                    &&& old(self)@.halted || old(self)@.mode != GameState::Betting
                },
            },
    {
        proof {
            use_type_invariant(&*self);
        }
        if self.halted {
            return Err(BetError::SettlementInvariantViolation);
        }
        match self.game_state.state {
            GameState::Betting => {
                proof {
                    lemma_table_with_nobody_ready(self@);
                    lemma_table_in_another_state(
                        Table { ready: Seq::empty(), ..self@ },
                        self@.phase,
                        GameState::Rolling,
                        self@.halted,
                    );
                }
                self.ready = Vec::new();
                self.game_state.state = GameState::Rolling;
                Ok(())
            },
            GameState::Rolling => Err(BetError::WrongMode),
        }
    }

    /// Settles one roll of the dice. Every wager on the board gets what the
    /// rules decide for its betting area; what is owed is paid into the
    /// owners' accounts; the wagers that carried stay on the board and the
    /// others leave it; the phase moves as the rules say and betting opens
    /// again. The report lists every wager that stood on the board.
    ///
    /// Where a wager cannot be paid, no account and no wager is touched, and
    /// the table halts.
    pub fn roll(&mut self, directory: &mut Directory, roll: Roll) -> (rolled: Result<
        RollReport,
        BetError,
    >)
        ensures
            final(self).wf(),
            final(directory).wf(),
            final(directory).issued() == old(directory).issued(),
            ({
                let owed = roll_records(old(self)@, roll@, POSITIONS as int);
                match rolled {
                    Ok(report) => {
                        &&& !old(self)@.halted
                        &&& old(self)@.mode == GameState::Rolling
                        &&& report.total == roll@.total()
                        &&& report.phase == next_phase(old(self)@.phase, roll@.total())
                        &&& report.settled@ == owed
                        &&& paid(old(directory)@, owed) == Some(final(directory)@)
                        &&& final(self)@ == table_after_roll(old(self)@, roll@)
                    },
                    Err(e) => {
                        &&& final(directory)@ == old(directory)@
                        &&& if old(self)@.halted {
                            &&& e == BetError::SettlementInvariantViolation
                            &&& final(self)@ == old(self)@
                        } else if old(self)@.mode != GameState::Rolling {
                            e == BetError::WrongMode && final(self)@ == old(self)@
                        } else {
                            &&& e == BetError::SettlementInvariantViolation
                            &&& paid(old(directory)@, owed) is None
                            &&& final(self)@ == (Table { halted: true, ..old(self)@ })
                        }
                    },
                }
            }),
    {
        proof {
            use_type_invariant(&*self);
            use_type_invariant(&*directory);
        }
        if self.halted {
            return Err(BetError::SettlementInvariantViolation);
        }
        match self.game_state.state {
            GameState::Betting => {
                return Err(BetError::WrongMode);
            },
            GameState::Rolling => {},
        }
        let phase = self.game_state.phase;
        let resolution = resolve(phase, roll);
        let records = self.settle_board(&resolution, roll);
        let ghost before = self@;
        match directory.settle_all(&records) {
            Ok(()) => {},
            Err(_) => {
                proof {
                    lemma_table_in_another_state(before, before.phase, before.mode, true);
                }
                self.halted = true;
                return Err(BetError::SettlementInvariantViolation);
            },
        }
        proof {
            lemma_table_with_empty_board(before);
            lemma_table_after_roll(before, roll@);
            lemma_wagers_are_live(before);
        }
        let mut board = Board::new();
        core::mem::swap(&mut board, &mut self.game_state.board);
        sweep(&mut board, &resolution, phase, roll);
        self.game_state.board = board;
        proof {
            let swept = Table {
                wagers: wagers_after_roll(before.wagers, before.phase, roll@),
                ..before
            };
            assert(self@ == swept);
            lemma_table_in_another_state(swept, resolution.phase(), before.mode, before.halted);
            lemma_table_in_another_state(
                swept,
                resolution.phase(),
                GameState::Betting,
                before.halted,
            );
        }
        match resolution.next_phase() {
            TablePhase::ComeOut => self.game_state.clear_point(),
            TablePhase::PointOn(point) => self.game_state.set_point(point),
        }
        self.game_state.state = GameState::Betting;
        Ok(RollReport { total: roll.total(), phase: resolution.next_phase(), settled: records })
    }

    /// Moves the table by one event of its cycle: see [`transition`]. The
    /// report of the roll is returned where the event was a roll.
    ///
    /// An event that the table does not take in its mode changes nothing. A
    /// roll that cannot be paid touches no account and no wager, and halts
    /// the table; a halted table takes no event.
    pub fn step(&mut self, directory: &mut Directory, event: TableEvent) -> (stepped: Result<
        Option<RollReport>,
        BetError,
    >)
        ensures
            final(self).wf(),
            final(directory).wf(),
            final(directory).issued() == old(directory).issued(),
            step_taken(
                old(self)@,
                old(directory)@,
                event,
                stepped,
                final(self)@,
                final(directory)@,
            ),
    {
        proof {
            use_type_invariant(&*directory);
        }
        match event {
            TableEvent::BettingClosed => match self.close_betting() {
                Ok(()) => Ok(None),
                Err(e) => Err(e),
            },
            TableEvent::Rolled(roll) => match self.roll(directory, roll) {
                Ok(report) => Ok(Some(report)),
                Err(e) => Err(e),
            },
        }
    }

    /// Why the table turns a command of `player` down, if it does.
    fn refuse(&self, player: u64) -> (refusal: Option<BetError>)
        ensures
            refusal == command_refusal(self@, player),
    {
        if self.halted {
            return Some(BetError::SettlementInvariantViolation);
        }
        match self.game_state.state {
            GameState::Rolling => {
                return Some(BetError::WrongMode);
            },
            GameState::Betting => {},
        }
        if !self.has_player(player) {
            return Some(BetError::NotSeated);
        }
        None
    }

    /// The seat of `player`, counted from 0.
    fn seat_of(&self, player: u64) -> (seat: Option<usize>)
        ensures
            match seat {
                Some(seat) => seat < self@.roster.len() && self@.roster[seat as int] == player,
                None => !self@.roster.contains(player),
            },
    {
        let mut index: usize = 0;
        while index < self.players.len()
            invariant
                index <= self.players.len(),
                forall|i: int| 0 <= i < index ==> self.players@[i] != player,
            decreases self.players.len() - index,
        {
            if self.players[index] == player {
                return Some(index);
            }
            index += 1;
        }
        None
    }

    /// No longer counts `player` as ready.
    fn forget_ready(&mut self, player: u64)
        ensures
            final(self)@ == (Table {
                ready: old(self)@.ready.filter(not_player(player)),
                ..old(self)@
            }),
    {
        let mut kept: Vec<u64> = Vec::new();
        let mut index: usize = 0;
        proof {
            broadcast use Seq::lemma_filter_len;

            assert(self.ready@.take(0) == Seq::<u64>::empty());
        }
        while index < self.ready.len()
            invariant
                index <= self.ready.len(),
                *self == *old(self),
                kept@ == self.ready@.take(index as int).filter(not_player(player)),
            decreases self.ready.len() - index,
        {
            let id = self.ready[index];
            proof {
                assert(self.ready@.take(index + 1) == self.ready@.take(index as int).push(id));
                Seq::lemma_filter_push(self.ready@.take(index as int), id, not_player(player));
            }
            if id != player {
                kept.push(id);
            }
            index += 1;
        }
        proof {
            assert(self.ready@.take(index as int) == self.ready@);
            use_type_invariant(&*self);
            lemma_filter_no_duplicates(self.ready@, not_player(player));
            assert forall|i: int| 0 <= i < kept@.len() implies self@.roster.contains(
                #[trigger] kept@[i],
            ) by {
                assert(self@.ready.contains(kept@[i]));
                let j = choose|j: int| 0 <= j < self@.ready.len() && self@.ready[j] == kept@[i];
                assert(self@.roster.contains(self@.ready[j]));
            }
        }
        self.ready = kept;
    }

    /// The records of `roll`, were it thrown now.
    fn settle_board(&self, resolution: &Resolution, roll: Roll) -> (records: Vec<Settlement>)
        requires
            forall|position: Position|
                #[trigger] resolution.decision(position) == outcome_of(
                    position,
                    self@.phase,
                    roll@,
                ),
        ensures
            records@ == roll_records(self@, roll@, POSITIONS as int),
    {
        proof {
            use_type_invariant(self);
        }
        let mut records: Vec<Settlement> = Vec::new();
        let mut index: usize = 0;
        while index < POSITIONS
            invariant
                index <= POSITIONS,
                self.wf(),
                forall|position: Position|
                    #[trigger] resolution.decision(position) == outcome_of(
                        position,
                        self@.phase,
                        roll@,
                    ),
                records@ == roll_records(self@, roll@, index as int),
            decreases POSITIONS - index,
        {
            let position = Position::from_index(index).unwrap();
            let outcome = resolution.outcome(position);
            let ratio = self.odds.ratio(position, roll);
            match self.game_state.board.get_bet(position) {
                Some(bets) => {
                    proof {
                        lemma_wagers_are_live(self@);
                        assert(all_live(self@.wagers[position]));
                    }
                    settle_every(position, bets, outcome, ratio, &mut records);
                },
                None => {
                    proof {
                        assert(settle_area(position, self@.wagers[position], outcome, ratio@)
                            == Seq::<Settlement>::empty());
                    }
                },
            }
            index += 1;
        }
        records
    }

    /// The records of the departure of `player`, were they to leave now.
    fn settle_departure(&self, player: u64) -> (records: Vec<Settlement>)
        ensures
            records@ == departure_records(self@, player, POSITIONS as int),
    {
        proof {
            use_type_invariant(self);
        }
        let outcome = match self.policy {
            LeavePolicy::Refund => Outcome::Pushed,
            LeavePolicy::Forfeit => Outcome::Lost,
        };
        let mut records: Vec<Settlement> = Vec::new();
        let mut index: usize = 0;
        while index < POSITIONS
            invariant
                index <= POSITIONS,
                self.wf(),
                outcome == leave_outcome(self@.policy),
                records@ == departure_records(self@, player, index as int),
            decreases POSITIONS - index,
        {
            let position = Position::from_index(index).unwrap();
            match self.game_state.board.get_bet(position) {
                Some(bets) => {
                    proof {
                        lemma_wagers_are_live(self@);
                        assert(all_live(self@.wagers[position]));
                    }
                    settle_owned(position, bets, player, outcome, &mut records);
                },
                None => {
                    proof {
                        broadcast use Seq::lemma_filter_len;

                        assert(settle_area(
                            position,
                            self@.wagers[position].filter(owned_by(player)),
                            outcome,
                            even_money(),
                        ) == Seq::<Settlement>::empty());
                    }
                },
            }
            index += 1;
        }
        records
    }
}

/// The record of one wager in play, settled.
fn settle_one(position: Position, bet: &Bet, outcome: Outcome, ratio: Ratio) -> (record: Settlement)
    requires
        is_live(bet@.status),
    ensures
        record == settlement_of(position, *bet, outcome, ratio@),
{
    let credit = match bet.settle(outcome, ratio) {
        Ok(settled) => settled.credit,
        Err(_) => 0,
    };
    Settlement {
        wager: bet.id(),
        position,
        owner: bet.owner(),
        stake: bet.amount(),
        outcome,
        credit,
    }
}

/// Settles every wager of `bets`, all alike, and adds their records to
/// `records`.
fn settle_every(
    position: Position,
    bets: &Vec<Bet>,
    outcome: Outcome,
    ratio: Ratio,
    records: &mut Vec<Settlement>,
)
    requires
        all_live(bets@),
    ensures
        final(records)@ == old(records)@ + settle_area(position, bets@, outcome, ratio@),
{
    let mut index: usize = 0;
    while index < bets.len()
        invariant
            index <= bets.len(),
            all_live(bets@),
            records@ == old(records)@ + settle_area(
                position,
                bets@.take(index as int),
                outcome,
                ratio@,
            ),
        decreases bets.len() - index,
    {
        records.push(settle_one(position, &bets[index], outcome, ratio));
        index += 1;
    }
    proof {
        assert(bets@.take(index as int) == bets@);
    }
}

/// Settles the wagers of `owner` among `bets`, all alike and at even
/// money, and adds their records to `records`.
fn settle_owned(
    position: Position,
    bets: &Vec<Bet>,
    owner: u64,
    outcome: Outcome,
    records: &mut Vec<Settlement>,
)
    requires
        all_live(bets@),
    ensures
        final(records)@ == old(records)@ + settle_area(
            position,
            bets@.filter(owned_by(owner)),
            outcome,
            even_money(),
        ),
{
    let mut index: usize = 0;
    let ghost settle = |bet: Bet| settlement_of(position, bet, outcome, even_money());
    proof {
        broadcast use Seq::lemma_filter_len;

        assert(bets@.take(0) == Seq::<Bet>::empty());
        assert(bets@.take(0).filter(owned_by(owner)).map_values(settle) == Seq::<
            Settlement,
        >::empty());
    }
    while index < bets.len()
        invariant
            index <= bets.len(),
            settle == |bet: Bet| settlement_of(position, bet, outcome, even_money()),
            all_live(bets@),
            records@ == old(records)@ + bets@.take(index as int).filter(owned_by(owner)).map_values(
                settle,
            ),
        decreases bets.len() - index,
    {
        let bet = &bets[index];
        proof {
            let seen = bets@.take(index as int);
            assert(bets@.take(index + 1) == seen.push(*bet));
            Seq::lemma_filter_push(seen, *bet, owned_by(owner));
            if bet@.owner == owner {
                assert(seen.filter(owned_by(owner)).push(*bet).map_values(settle) == seen.filter(
                    owned_by(owner),
                ).map_values(settle).push(settle(*bet)));
            }
        }
        if bet.owner() == owner {
            records.push(settle_one(position, bet, outcome, Ratio::even()));
        }
        index += 1;
    }
    proof {
        assert(bets@.take(index as int) == bets@);
    }
}

/// The wagers of `bets`, each carried.
fn carry_every(bets: &Vec<Bet>) -> (carried: Vec<Bet>)
    requires
        all_live(bets@),
    ensures
        carried@ == bets@.map_values(|bet: Bet| bet.after(Outcome::Carried)),
{
    let mut carried: Vec<Bet> = Vec::new();
    let mut index: usize = 0;
    while index < bets.len()
        invariant
            index <= bets.len(),
            all_live(bets@),
            carried@ == bets@.take(index as int).map_values(|bet: Bet| bet.after(Outcome::Carried)),
        decreases bets.len() - index,
    {
        carried.push(bets[index].carried());
        index += 1;
    }
    proof {
        assert(bets@.take(index as int) == bets@);
    }
    carried
}

/// Clears the betting areas of `board` that `resolution` decided and
/// carries the wagers on the others.
fn sweep(board: &mut Board, resolution: &Resolution, phase: TablePhase, roll: Roll)
    requires
        forall|position: Position|
            #[trigger] resolution.decision(position) == outcome_of(position, phase, roll@),
        forall|position: Position| all_live(#[trigger] old(board).layout()[position]),
    ensures
        final(board).layout() == wagers_after_roll(old(board).layout(), phase, roll@),
{
    let mut index: usize = 0;
    proof {
        lemma_layout_is_one_to_one();
    }
    while index < POSITIONS
        invariant
            index <= POSITIONS,
            forall|position: Position|
                #[trigger] resolution.decision(position) == outcome_of(position, phase, roll@),
            forall|position: Position| all_live(#[trigger] old(board).layout()[position]),
            forall|i: int|
                0 <= i < POSITIONS ==> #[trigger] board.layout()[position_at(i)] == if i < index {
                    wagers_after_roll(old(board).layout(), phase, roll@)[position_at(i)]
                } else {
                    old(board).layout()[position_at(i)]
                },
        decreases POSITIONS - index,
    {
        let position = Position::from_index(index).unwrap();
        let ghost before = board.layout();
        proof {
            lemma_layout_is_one_to_one();
            assert(before[position_at(index as int)] == old(board).layout()[position]);
        }
        match resolution.outcome(position) {
            Outcome::Carried => {
                let carried = match board.get_bet(position) {
                    Some(bets) => {
                        carry_every(bets)
                    },
                    None => Vec::new(),
                };
                let _ = board.replace(position, carried);
            },
            _ => {
                board.clear_bet(position);
            },
        }
        index += 1;
        proof {
            assert forall|i: int| 0 <= i < POSITIONS implies #[trigger] board.layout()[position_at(
                i,
            )] == if i < index {
                wagers_after_roll(old(board).layout(), phase, roll@)[position_at(i)]
            } else {
                old(board).layout()[position_at(i)]
            } by {
                if i != index - 1 {
                    assert(position_at(i) != position);
                    assert(board.layout()[position_at(i)] == before[position_at(i)]);
                }
            }
        }
    }
    proof {
        lemma_layout_is_one_to_one();
        let after = wagers_after_roll(old(board).layout(), phase, roll@);
        assert forall|position: Position| #[trigger]
            board.layout()[position] == after[position] by {
            assert(position_at(index_of(position)) == position);
        }
        assert(board.layout() == after);
    }
}

/// Takes the wagers of `player` off every betting area of `board`.
fn clear_wagers_of(board: &mut Board, player: u64)
    ensures
        final(board).layout() == wagers_without(old(board).layout(), player),
{
    let mut index: usize = 0;
    proof {
        lemma_layout_is_one_to_one();
    }
    while index < POSITIONS
        invariant
            index <= POSITIONS,
            forall|i: int|
                0 <= i < POSITIONS ==> #[trigger] board.layout()[position_at(i)] == if i < index {
                    wagers_without(old(board).layout(), player)[position_at(i)]
                } else {
                    old(board).layout()[position_at(i)]
                },
        decreases POSITIONS - index,
    {
        let position = Position::from_index(index).unwrap();
        let ghost before = board.layout();
        proof {
            lemma_layout_is_one_to_one();
            assert(before[position_at(index as int)] == old(board).layout()[position]);
        }
        let _ = board.withdraw(position, player);
        index += 1;
        proof {
            assert forall|i: int| 0 <= i < POSITIONS implies #[trigger] board.layout()[position_at(
                i,
            )] == if i < index {
                wagers_without(old(board).layout(), player)[position_at(i)]
            } else {
                old(board).layout()[position_at(i)]
            } by {
                if i != index - 1 {
                    assert(position_at(i) != position);
                    assert(board.layout()[position_at(i)] == before[position_at(i)]);
                }
            }
        }
    }
    proof {
        lemma_layout_is_one_to_one();
        let after = wagers_without(old(board).layout(), player);
        assert forall|position: Position| #[trigger]
            board.layout()[position] == after[position] by {
            assert(position_at(index_of(position)) == position);
        }
        assert(board.layout() == after);
    }
}

/// The roster with `player` behind the others.
fn with_one_more(players: &Vec<u64>, player: u64) -> (more: Vec<u64>)
    ensures
        more@ == players@.push(player),
{
    let mut more: Vec<u64> = Vec::new();
    let mut index: usize = 0;
    while index < players.len()
        invariant
            index <= players.len(),
            more@ == players@.take(index as int),
        decreases players.len() - index,
    {
        more.push(players[index]);
        index += 1;
    }
    more.push(player);
    proof {
        assert(players@.take(index as int) == players@);
    }
    more
}

/// The roster without the player in the seat `seat`.
fn without_seat(players: &Vec<u64>, seat: usize) -> (fewer: Vec<u64>)
    requires
        seat < players@.len(),
    ensures
        fewer@ == players@.remove(seat as int),
{
    let mut fewer: Vec<u64> = Vec::new();
    let mut index: usize = 0;
    while index < players.len()
        invariant
            index <= players.len(),
            seat < players@.len(),
            fewer@ == if index <= seat {
                players@.take(index as int)
            } else {
                players@.take(index as int).remove(seat as int)
            },
        decreases players.len() - index,
    {
        if index != seat {
            fewer.push(players[index]);
        }
        index += 1;
    }
    proof {
        assert(players@.take(index as int) == players@);
    }
    fewer
}

} // verus!
