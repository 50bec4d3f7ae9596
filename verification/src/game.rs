//! The registry of live tables: it seats a player at a table with room or
//! opens a new one, and retires a table when its last player leaves.

use crate::bet::{Bet, BetError};
use crate::crapless::{CraplessCraps, Departure, LeavePolicy, RollReport, TableEvent};
use crate::ledger::{Directory, Settlement};
use crate::odds::PayTable;
use crate::position::Position;
use crate::registry::{
    first_with, goes_by, has_room, lemma_first_with, lemma_first_with_is,
    lemma_joined_keeps_well_formed, lemma_left_keeps_well_formed, lemma_with_table,
    lemma_without_tables, seats, Registry,
};
use crate::table::{
    departure, fresh_table, lemma_departure_keeps_the_others, lemma_seated_in_turn, placement,
    readiness, step_taken, table_after_departure, withdrawal, Table,
};
use vstd::prelude::*;

verus! {

/// The games on offer. A new game brings its own rules of settlement, and
/// so its own kind of table: it is added here as a variant, and in
/// [`GameProvider`] as the tables of that kind.
#[derive(Clone, Copy, Debug, PartialEq, Eq, Structural)]
pub enum GameNames {
    Crapless,
}

/// The registry of the live tables of one game.
pub struct GameProvider {
    game_name: GameNames,
    game: Vec<CraplessCraps>,
    player_limit: u32,
    next_id: u32,
    policy: LeavePolicy,
    odds: PayTable,
}

/// What the tables of `games` are, as mathematical values.
spec fn tables_of(games: Seq<CraplessCraps>) -> Seq<Table> {
    games.map_values(|table: CraplessCraps| table@)
}

impl View for GameProvider {
    type V = Registry;

    closed spec fn view(&self) -> Registry {
        Registry {
            kind: self.game_name,
            limit: self.player_limit,
            next_id: self.next_id,
            tables: tables_of(self.game@),
            policy: self.policy,
            odds: self.odds,
        }
    }
}

/// What a departure did in the registry.
#[derive(Debug)]
pub struct Removal {
    /// The number of the table that the player left.
    pub table: u32,
    /// What the departure did at that table.
    pub departure: Departure,
    /// Whether the table was retired: whether the player was the last at it.
    pub retired: bool,
}

impl GameProvider {
    /// See [`Registry::wf`]. Every registry is well formed, at all times.
    #[verifier::type_invariant]
    pub open spec fn wf(&self) -> bool {
        self@.wf()
    }

    /// A registry with no table yet, for tables that seat `player_limit`
    /// players, under the usual pay table. A player who leaves gets the
    /// stakes of their wagers back. Tables are numbered from 1.
    pub fn new(game_name: GameNames, player_limit: u32) -> (provider: GameProvider)
        ensures
            provider.wf(),
            provider@ == (Registry {
                kind: game_name,
                limit: player_limit,
                next_id: 1,
                tables: Seq::empty(),
                policy: LeavePolicy::Refund,
                odds: provider@.odds,
            }),
            forall|position: Position, total: int|
                2 <= total <= 12 ==> #[trigger] provider@.odds.odds_at(position, total)
                    == crate::odds::standard_odds(position, total),
    {
        GameProvider::with_rules(game_name, player_limit, LeavePolicy::Refund, PayTable::standard())
    }

    /// A registry with no table yet, whose tables will be set up with the
    /// rules given.
    pub fn with_rules(
        game_name: GameNames,
        player_limit: u32,
        policy: LeavePolicy,
        odds: PayTable,
    ) -> (provider: GameProvider)
        ensures
            provider.wf(),
            provider@ == (Registry {
                kind: game_name,
                limit: player_limit,
                next_id: 1,
                tables: Seq::empty(),
                policy,
                odds,
            }),
    {
        let provider = GameProvider {
            game_name,
            game: Vec::new(),
            player_limit,
            next_id: 1,
            policy,
            odds,
        };
        proof {
            assert(provider@.tables == Seq::<Table>::empty());
            use_type_invariant(&provider);
        }
        provider
    }

    /// The game that is played at the tables of this registry.
    pub fn game_name(&self) -> (name: &GameNames)
        ensures
            *name == self@.kind,
    {
        &self.game_name
    }

    /// How many players a table seats.
    pub fn player_limit(&self) -> (limit: u32)
        ensures
            limit == self@.limit,
    {
        self.player_limit
    }

    /// How many tables are live.
    pub fn game_count(&self) -> (count: u32)
        ensures
            count == self@.tables.len(),
    {
        proof {
            use_type_invariant(self);
        }
        self.game.len() as u32
    }

    /// The numbers of the live tables, oldest first.
    pub fn game_ids(&self) -> (ids: Vec<u32>)
        ensures
            ids@ == self@.tables.map_values(|table: Table| table.id),
    {
        let mut ids: Vec<u32> = Vec::new();
        let mut index: usize = 0;
        while index < self.game.len()
            invariant
                index <= self.game.len(),
                ids@ == self@.tables.take(index as int).map_values(|table: Table| table.id),
            decreases self.game.len() - index,
        {
            ids.push(self.game[index].game_id());
            index += 1;
            proof {
                assert(self@.tables.take(index as int) == self@.tables.take(index - 1).push(
                    self@.tables[index - 1],
                ));
            }
        }
        proof {
            assert(self@.tables.take(index as int) == self@.tables);
        }
        ids
    }

    /// The place of the table at which `player` has a seat.
    fn place_of_player(&self, player: u64) -> (place: usize)
        ensures
            place == first_with(self@.tables, seats(player)),
            place <= self@.tables.len(),
            place < self@.tables.len() ==> self@.tables[place as int].roster.contains(player),
    {
        let mut index: usize = 0;
        while index < self.game.len()
            invariant
                index <= self.game.len(),
                forall|i: int| 0 <= i < index ==> !seats(player)(#[trigger] self@.tables[i]),
            decreases self.game.len() - index,
        {
            if self.game[index].has_player(player) {
                proof {
                    lemma_first_with_is(self@.tables, seats(player), index as int);
                }
                return index;
            }
            index += 1;
        }
        proof {
            lemma_first_with_is(self@.tables, seats(player), index as int);
        }
        index
    }

    /// The place of the first table with room.
    fn place_with_room(&self) -> (place: usize)
        ensures
            place == first_with(self@.tables, has_room(self@.limit)),
            place <= self@.tables.len(),
    {
        let mut index: usize = 0;
        while index < self.game.len()
            invariant
                index <= self.game.len(),
                forall|i: int|
                    0 <= i < index ==> !has_room(self@.limit)(#[trigger] self@.tables[i]),
            decreases self.game.len() - index,
        {
            let table = &self.game[index];
            if !table.is_halted() && table.player_count() < self.player_limit {
                proof {
                    lemma_first_with_is(self@.tables, has_room(self@.limit), index as int);
                }
                return index;
            }
            index += 1;
        }
        proof {
            lemma_first_with_is(self@.tables, has_room(self@.limit), index as int);
        }
        index
    }

    /// The place of the table that goes by `id`.
    fn place_of_table(&self, id: u32) -> (place: usize)
        ensures
            place == first_with(self@.tables, goes_by(id)),
            place <= self@.tables.len(),
            place < self@.tables.len() ==> self@.tables[place as int].id == id,
    {
        let mut index: usize = 0;
        while index < self.game.len()
            invariant
                index <= self.game.len(),
                forall|i: int| 0 <= i < index ==> !goes_by(id)(#[trigger] self@.tables[i]),
            decreases self.game.len() - index,
        {
            if self.game[index].game_id() == id {
                proof {
                    lemma_first_with_is(self@.tables, goes_by(id), index as int);
                }
                return index;
            }
            index += 1;
        }
        proof {
            lemma_first_with_is(self@.tables, goes_by(id), index as int);
        }
        index
    }

    /// The table that goes by `id`.
    pub fn game(&self, id: u32) -> (found: Option<&CraplessCraps>)
        ensures
            match found {
                Some(table) => {
                    let place = first_with(self@.tables, goes_by(id));
                    place < self@.tables.len() && table@ == self@.tables[place] && table@.id == id
                },
                None => first_with(self@.tables, goes_by(id)) >= self@.tables.len(),
            },
    {
        let place = self.place_of_table(id);
        if place < self.game.len() {
            Some(&self.game[place])
        } else {
            None
        }
    }

    /// The number of the table at which `player` has a seat.
    pub fn game_of(&self, player: u64) -> (found: Option<u32>)
        ensures
            match found {
                Some(id) => {
                    let place = first_with(self@.tables, seats(player));
                    place < self@.tables.len() && self@.tables[place].id == id
                },
                None => first_with(self@.tables, seats(player)) >= self@.tables.len(),
            },
    {
        let place = self.place_of_player(player);
        if place < self.game.len() {
            Some(self.game[place].game_id())
        } else {
            None
        }
    }

    /// Finds `player` a seat and returns the number of the table: the table
    /// at which they sit already, else the first table with room, else a
    /// new table. No seat can be made where tables seat nobody or the
    /// numbers have run out. See [`Registry::joined`].
    ///
    /// The search and the seating are one step: nobody else is seated in
    /// between, so no table is ever given more players than the limit.
    pub fn add_player_to_game(&mut self, player: u64) -> (seated: Result<u32, BetError>)
        ensures
            final(self).wf(),
            final(self)@ == old(self)@.joined(player).0,
            match seated {
                Ok(id) => old(self)@.joined(player).1 == Some(id),
                Err(e) => e == BetError::TableFull && old(self)@.joined(player).1 is None,
            },
    {
        proof {
            use_type_invariant(&*self);
            lemma_joined_keeps_well_formed(self@, player);
            lemma_without_tables(self@);
        }
        let seat = self.place_of_player(player);
        if seat < self.game.len() {
            return Ok(self.game[seat].game_id());
        }
        let room = self.place_with_room();
        if room < self.game.len() {
            proof {
                lemma_first_with(self@.tables, seats(player));
                lemma_first_with(self@.tables, has_room(self@.limit));
                assert(self@.tables[room as int].wf());
                assert(!seats(player)(self@.tables[room as int]));
            }
            let mut games: Vec<CraplessCraps> = Vec::new();
            core::mem::swap(&mut games, &mut self.game);
            let id = games[room].game_id();
            let _ = games[room].add_player(player);
            proof {
                let table = old(self)@.tables[room as int];
                assert(tables_of(games@) == old(self)@.tables.update(
                    room as int,
                    Table { roster: table.roster.push(player), ..table },
                ));
            }
            self.game = games;
            return Ok(id);
        }
        if self.player_limit == 0 || self.next_id == u32::MAX {
            return Err(BetError::TableFull);
        }
        let id = self.next_id;
        let mut players: Vec<u64> = Vec::new();
        players.push(player);
        proof {
            assert(players@ == seq![player]);
            lemma_seated_in_turn(players@);
        }
        let table = CraplessCraps::with_rules(id, players, self.policy, self.odds);
        self.next_id = id + 1;
        let mut games: Vec<CraplessCraps> = Vec::new();
        core::mem::swap(&mut games, &mut self.game);
        games.push(table);
        proof {
            assert(tables_of(games@) == old(self)@.tables.push(
                fresh_table(id, seq![player], old(self)@.policy, old(self)@.odds),
            ));
        }
        self.game = games;
        Ok(id)
    }

    /// Takes `player` from the table at which they sit, with their wagers,
    /// and retires the table where they were the last at it: the table
    /// leaves the registry and its number goes out of use. Returns nothing,
    /// and changes nothing, where the player sits at no table. See
    /// [`departure`] for what happens at the table.
    pub fn remove_player_from_game(&mut self, directory: &mut Directory, player: u64) -> (removed:
        Option<Removal>)
        ensures
            final(self).wf(),
            final(directory).wf(),
            final(directory).issued() == old(directory).issued(),
            ({
                let before = old(self)@;
                let seat = first_with(before.tables, seats(player));
                match removed {
                    Some(removal) => {
                        &&& seat < before.tables.len()
                        &&& removal.table == before.tables[seat].id
                        &&& removal.retired == (before.tables[seat].roster.len() == 1)
                        &&& departure(
                            before.tables[seat],
                            old(directory)@,
                            player,
                            Some(removal.departure),
                            table_after_departure(
                                before.tables[seat],
                                player,
                                removal.departure.paid,
                            ),
                            final(directory)@,
                        )
                        &&& final(self)@ == before.left(player, removal.departure.paid)
                        &&& removal.retired ==> {
                            &&& final(self)@.tables.len() == before.tables.len() - 1
                            &&& forall|i: int|
                                0 <= i < final(self)@.tables.len() ==> (
                                #[trigger] final(self)@.tables[i]).id != removal.table
                        }
                    },
                    None => {
                        &&& seat >= before.tables.len()
                        &&& final(self)@ == before
                        &&& final(directory)@ == old(directory)@
                    },
                }
            }),
            first_with(final(self)@.tables, seats(player)) >= final(self)@.tables.len(),
    {
        proof {
            use_type_invariant(&*self);
            use_type_invariant(&*directory);
            lemma_without_tables(self@);
            lemma_first_with(self@.tables, seats(player));
        }
        let seat = self.place_of_player(player);
        if seat >= self.game.len() {
            return None;
        }
        let mut games: Vec<CraplessCraps> = Vec::new();
        core::mem::swap(&mut games, &mut self.game);
        let id = games[seat].game_id();
        let departure = match games[seat].remove_player(directory, player) {
            Some(departure) => departure,
            None => {
                self.game = games;
                return None;
            },
        };
        let retired = !games[seat].has_players();
        proof {
            let before = old(self)@;
            let table = table_after_departure(before.tables[seat as int], player, departure.paid);
            assert(tables_of(games@) == before.tables.update(seat as int, table));
            lemma_left_keeps_well_formed(before, player, departure.paid);
            lemma_departure_keeps_the_others(before.tables[seat as int], player);
        }
        if retired {
            let _ = games.remove(seat);
            proof {
                assert(tables_of(games@) == old(self)@.tables.remove(seat as int));
            }
        }
        self.game = games;
        Some(Removal { table: id, departure, retired })
    }

    /// Places a wager for `player` at the table at which they sit: see
    /// [`placement`]. A player who sits at no table is turned down.
    pub fn place_wager(
        &mut self,
        directory: &mut Directory,
        player: u64,
        amount: u32,
        position: Position,
    ) -> (placed: Result<Bet, BetError>)
        ensures
            final(self).wf(),
            final(directory).wf(),
            final(directory).issued() == old(directory).issued(),
            ({
                let before = old(self)@;
                let seat = first_with(before.tables, seats(player));
                if seat < before.tables.len() {
                    &&& final(self)@ == before.with_table(seat, final(self)@.tables[seat])
                    &&& placement(
                        before.tables[seat],
                        old(directory)@,
                        player,
                        amount,
                        position,
                        placed,
                        final(self)@.tables[seat],
                        final(directory)@,
                    )
                } else {
                    &&& placed == Err::<Bet, BetError>(BetError::NotSeated)
                    &&& final(self)@ == before
                    &&& final(directory)@ == old(directory)@
                }
            }),
    {
        proof {
            use_type_invariant(&*self);
            use_type_invariant(&*directory);
            lemma_without_tables(self@);
        }
        let seat = self.place_of_player(player);
        if seat >= self.game.len() {
            return Err(BetError::NotSeated);
        }
        let mut games: Vec<CraplessCraps> = Vec::new();
        core::mem::swap(&mut games, &mut self.game);
        let placed = games[seat].place_wager(directory, player, amount, position);
        proof {
            let table = games@[seat as int]@;
            assert(old(self)@.tables[seat as int].wf());
            assert(tables_of(games@) == old(self)@.tables.update(seat as int, table));
            lemma_with_table(old(self)@, seat as int, table);
        }
        self.game = games;
        placed
    }

    /// Withdraws the wagers of `player` on `position` at the table at which
    /// they sit: see [`withdrawal`]. A player who sits at no table is turned
    /// down.
    pub fn withdraw_wager(
        &mut self,
        directory: &mut Directory,
        player: u64,
        position: Position,
    ) -> (withdrawn: Result<Vec<Settlement>, BetError>)
        ensures
            final(self).wf(),
            final(directory).wf(),
            final(directory).issued() == old(directory).issued(),
            ({
                let before = old(self)@;
                let seat = first_with(before.tables, seats(player));
                if seat < before.tables.len() {
                    &&& final(self)@ == before.with_table(seat, final(self)@.tables[seat])
                    &&& withdrawal(
                        before.tables[seat],
                        old(directory)@,
                        player,
                        position,
                        withdrawn,
                        final(self)@.tables[seat],
                        final(directory)@,
                    )
                } else {
                    &&& withdrawn matches Err(e)
                    &&& e == BetError::NotSeated
                    &&& final(self)@ == before
                    &&& final(directory)@ == old(directory)@
                }
            }),
    {
        proof {
            use_type_invariant(&*self);
            use_type_invariant(&*directory);
            lemma_without_tables(self@);
        }
        let seat = self.place_of_player(player);
        if seat >= self.game.len() {
            return Err(BetError::NotSeated);
        }
        let mut games: Vec<CraplessCraps> = Vec::new();
        core::mem::swap(&mut games, &mut self.game);
        let withdrawn = games[seat].withdraw_wager(directory, player, position);
        proof {
            let table = games@[seat as int]@;
            assert(old(self)@.tables[seat as int].wf());
            assert(tables_of(games@) == old(self)@.tables.update(seat as int, table));
            lemma_with_table(old(self)@, seat as int, table);
        }
        self.game = games;
        withdrawn
    }

    /// Notes that `player` is done betting at the table at which they sit,
    /// and tells whether everybody at that table is: see [`readiness`]. A
    /// player who sits at no table is turned down.
    pub fn mark_ready(&mut self, player: u64) -> (marked: Result<bool, BetError>)
        ensures
            final(self).wf(),
            ({
                let before = old(self)@;
                let seat = first_with(before.tables, seats(player));
                if seat < before.tables.len() {
                    &&& final(self)@ == before.with_table(seat, final(self)@.tables[seat])
                    &&& readiness(before.tables[seat], player, marked, final(self)@.tables[seat])
                } else {
                    &&& marked == Err::<bool, BetError>(BetError::NotSeated)
                    &&& final(self)@ == before
                }
            }),
    {
        proof {
            use_type_invariant(&*self);
            lemma_without_tables(self@);
        }
        let seat = self.place_of_player(player);
        if seat >= self.game.len() {
            return Err(BetError::NotSeated);
        }
        let mut games: Vec<CraplessCraps> = Vec::new();
        core::mem::swap(&mut games, &mut self.game);
        let marked = games[seat].mark_ready(player);
        proof {
            let table = games@[seat as int]@;
            assert(old(self)@.tables[seat as int].wf());
            assert(tables_of(games@) == old(self)@.tables.update(seat as int, table));
            lemma_with_table(old(self)@, seat as int, table);
        }
        self.game = games;
        marked
    }

    /// Moves the table that goes by `id` by one event of its cycle: see
    /// [`step_taken`]. An event for a table that is not live is turned down.
    pub fn step(
        &mut self,
        directory: &mut Directory,
        id: u32,
        event: TableEvent,
    ) -> (stepped: Result<Option<RollReport>, BetError>)
        ensures
            final(self).wf(),
            final(directory).wf(),
            final(directory).issued() == old(directory).issued(),
            ({
                let before = old(self)@;
                let place = first_with(before.tables, goes_by(id));
                if place < before.tables.len() {
                    &&& final(self)@ == before.with_table(place, final(self)@.tables[place])
                    &&& step_taken(
                        before.tables[place],
                        old(directory)@,
                        event,
                        stepped,
                        final(self)@.tables[place],
                        final(directory)@,
                    )
                } else {
                    &&& stepped matches Err(e)
                    &&& e == BetError::UnknownTable
                    &&& final(self)@ == before
                    &&& final(directory)@ == old(directory)@
                }
            }),
    {
        proof {
            use_type_invariant(&*self);
            use_type_invariant(&*directory);
            lemma_without_tables(self@);
        }
        let place = self.place_of_table(id);
        if place >= self.game.len() {
            return Err(BetError::UnknownTable);
        }
        let mut games: Vec<CraplessCraps> = Vec::new();
        core::mem::swap(&mut games, &mut self.game);
        let stepped = games[place].step(directory, event);
        proof {
            let table = games@[place as int]@;
            assert(old(self)@.tables[place as int].wf());
            assert(tables_of(games@) == old(self)@.tables.update(place as int, table));
            lemma_with_table(old(self)@, place as int, table);
        }
        self.game = games;
        stepped
    }
}

} // verus!
