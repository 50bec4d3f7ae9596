//! The registry as a mathematical value: the live tables, when the
//! registry is well formed, and what joining and leaving make of it.

use crate::crapless::LeavePolicy;
use crate::game::GameNames;
use crate::odds::PayTable;
use crate::position::Position;
use crate::table::{
    all_in_play, fresh_table, lemma_departure_keeps_the_others, lemma_table_after_departure,
    lemma_table_with_one_more, table_after_departure, Table,
};
use crate::upkeep::lemma_roster_push;
use vstd::prelude::*;

verus! {

/// What a [`GameProvider`] is, as a mathematical value.
pub struct Registry {
    pub kind: GameNames,
    /// How many players a table seats.
    pub limit: u32,
    /// The number that the next table will go by.
    pub next_id: u32,
    /// The live tables, oldest first.
    pub tables: Seq<Table>,
    /// The rules that new tables are set up with.
    pub policy: LeavePolicy,
    pub odds: PayTable,
}

/// The place of the first table that `wanted` holds of, or the number of
/// tables where it holds of none.
pub open spec fn first_with(tables: Seq<Table>, wanted: spec_fn(Table) -> bool) -> int
    decreases tables.len(),
{
    if tables.len() == 0 {
        0
    } else if wanted(tables.first()) {
        0
    } else {
        1 + first_with(tables.drop_first(), wanted)
    }
}

/// The tables at which `player` has a seat.
pub open spec fn seats(player: u64) -> spec_fn(Table) -> bool {
    |table: Table| table.roster.contains(player)
}

/// The tables that can seat one more: not halted, and fewer than `limit`
/// seated.
pub open spec fn has_room(limit: u32) -> spec_fn(Table) -> bool {
    |table: Table| !table.halted && table.roster.len() < limit
}

/// The tables that go by `id`.
pub open spec fn goes_by(id: u32) -> spec_fn(Table) -> bool {
    |table: Table| table.id == id
}

impl Registry {
    /// A registry is well formed where every table is, no table is empty or
    /// seats more than the limit, no two tables go by one number, and nobody
    /// sits at two tables.
    pub open spec fn wf(self) -> bool {
        &&& self.tables.len() < self.next_id
        &&& forall|i: int|
            0 <= i < self.tables.len() ==> {
                &&& (#[trigger] self.tables[i]).wf()
                &&& 1 <= self.tables[i].roster.len() <= self.limit
                &&& self.tables[i].id < self.next_id
            }
        &&& forall|i: int, j: int|
            0 <= i < self.tables.len() && 0 <= j < self.tables.len() && i != j ==> (
            #[trigger] self.tables[i]).id != (#[trigger] self.tables[j]).id
        &&& forall|i: int, j: int, player: u64|
            0 <= i < self.tables.len() && 0 <= j < self.tables.len() && i != j
                && #[trigger] self.tables[i].roster.contains(player)
                ==> !#[trigger] self.tables[j].roster.contains(player)
    }

    /// The registry after `player` asks for a seat, and the number of the
    /// table that seats them, if one does.
    ///
    /// A player who has a seat keeps it. Otherwise the first table with room
    /// seats them. Otherwise a new table is opened for them, unless tables
    /// seat nobody or the numbers have run out.
    pub open spec fn joined(self, player: u64) -> (Registry, Option<u32>) {
        let seat = first_with(self.tables, seats(player));
        let room = first_with(self.tables, has_room(self.limit));
        if seat < self.tables.len() {
            (self, Some(self.tables[seat].id))
        } else if room < self.tables.len() {
            let table = self.tables[room];
            (
                Registry {
                    tables: self.tables.update(
                        room,
                        Table { roster: table.roster.push(player), ..table },
                    ),
                    ..self
                },
                Some(table.id),
            )
        } else if self.limit > 0 && self.next_id < u32::MAX {
            (
                Registry {
                    tables: self.tables.push(
                        fresh_table(self.next_id, seq![player], self.policy, self.odds),
                    ),
                    next_id: (self.next_id + 1) as u32,
                    ..self
                },
                Some(self.next_id),
            )
        } else {
            (self, None)
        }
    }

    /// The registry after `player` has left: their table, as the departure
    /// left it, or no such table any more where they were the last at it.
    /// `paid` is whether what the departure owed was paid.
    pub open spec fn left(self, player: u64, paid: bool) -> Registry {
        let seat = first_with(self.tables, seats(player));
        if seat >= self.tables.len() {
            self
        } else {
            let table = table_after_departure(self.tables[seat], player, paid);
            if table.roster.len() == 0 {
                Registry { tables: self.tables.remove(seat), ..self }
            } else {
                Registry { tables: self.tables.update(seat, table), ..self }
            }
        }
    }

    /// The registry with `table` in the place of the table at `place`.
    pub open spec fn with_table(self, place: int, table: Table) -> Registry {
        Registry { tables: self.tables.update(place, table), ..self }
    }

    /// The registry after each of `players` has asked for a seat, in order.
    pub open spec fn joined_all(self, players: Seq<u64>) -> Registry
        decreases players.len(),
    {
        if players.len() == 0 {
            self
        } else {
            self.joined_all(players.drop_last()).joined(players.last()).0
        }
    }
}

/// [`first_with`] finds a table that `wanted` holds of, and the first of
/// them, or none where there is none.
pub proof fn lemma_first_with(tables: Seq<Table>, wanted: spec_fn(Table) -> bool)
    ensures
        0 <= first_with(tables, wanted) <= tables.len(),
        first_with(tables, wanted) < tables.len() ==> wanted(tables[first_with(tables, wanted)]),
        forall|i: int| 0 <= i < first_with(tables, wanted) ==> !wanted(#[trigger] tables[i]),
    decreases tables.len(),
{
    if tables.len() > 0 && !wanted(tables.first()) {
        let rest = tables.drop_first();
        lemma_first_with(rest, wanted);
        assert forall|i: int| 0 <= i < first_with(tables, wanted) implies !wanted(
            #[trigger] tables[i],
        ) by {
            if i > 0 {
                assert(tables[i] == rest[i - 1]);
            }
        }
    }
}

/// The first table that `wanted` holds of is at `place`.
pub proof fn lemma_first_with_is(tables: Seq<Table>, wanted: spec_fn(Table) -> bool, place: int)
    requires
        0 <= place <= tables.len(),
        forall|i: int| 0 <= i < place ==> !wanted(#[trigger] tables[i]),
        place < tables.len() ==> wanted(tables[place]),
    ensures
        first_with(tables, wanted) == place,
{
    lemma_first_with(tables, wanted);
    let found = first_with(tables, wanted);
    if found < place {
        assert(!wanted(tables[found]));
    } else if found > place {
        assert(!wanted(tables[place]));
    }
}

/// Seating a player keeps the registry well formed: whoever asks, and
/// however many ask, no table ends up with more players than the limit, nor
/// anybody at two tables.
pub proof fn lemma_joined_keeps_well_formed(registry: Registry, player: u64)
    requires
        registry.wf(),
    ensures
        registry.joined(player).0.wf(),
        registry.joined(player).1 matches Some(id) ==> {
            let after = registry.joined(player).0;
            let seat = first_with(after.tables, seats(player));
            seat < after.tables.len() && after.tables[seat].id == id
        },
{
    let tables = registry.tables;
    let seat = first_with(tables, seats(player));
    let room = first_with(tables, has_room(registry.limit));
    lemma_first_with(tables, seats(player));
    lemma_first_with(tables, has_room(registry.limit));
    let after = registry.joined(player).0;
    if seat < tables.len() {
    } else if room < tables.len() {
        let table = tables[room];
        let more = Table { roster: table.roster.push(player), ..table };
        assert(!seats(player)(table));
        lemma_table_with_one_more(table, player);
        lemma_roster_push(table.roster, player);
        assert(after.tables == tables.update(room, more));
        assert forall|i: int| 0 <= i < after.tables.len() implies {
            &&& (#[trigger] after.tables[i]).wf()
            &&& 1 <= after.tables[i].roster.len() <= after.limit
            &&& after.tables[i].id < after.next_id
        } by {
            if i != room {
                assert(after.tables[i] == tables[i]);
            }
        }
        assert forall|i: int, j: int|
            0 <= i < after.tables.len() && 0 <= j < after.tables.len() && i != j implies (
        #[trigger] after.tables[i]).id != (#[trigger] after.tables[j]).id by {
            assert(after.tables[i].id == tables[i].id);
            assert(after.tables[j].id == tables[j].id);
        }
        assert forall|i: int, j: int, p: u64|
            0 <= i < after.tables.len() && 0 <= j < after.tables.len() && i != j
                && #[trigger] after.tables[i].roster.contains(p) implies !#[trigger]
            after.tables[j].roster.contains(p) by {
            if p == player {
                if i == room {
                    assert(!seats(player)(tables[j]));
                } else {
                    assert(!seats(player)(tables[i]));
                }
            } else {
                assert(tables[i].roster.contains(p));
                assert(!tables[j].roster.contains(p));
            }
        }
        assert forall|i: int| 0 <= i < room implies !seats(player)(#[trigger] after.tables[i]) by {
            assert(after.tables[i] == tables[i]);
            assert(!seats(player)(tables[i]));
        }
        lemma_first_with_is(after.tables, seats(player), room);
    } else if registry.limit > 0 && registry.next_id < u32::MAX {
        let table = fresh_table(registry.next_id, seq![player], registry.policy, registry.odds);
        assert(table.roster[0] == player);
        assert(table.wf()) by {
            assert forall|position: Position|
                all_in_play(table.roster, #[trigger] table.wagers[position]) by {
                assert(table.wagers[position].len() == 0);
            }
        }
        assert(after.tables == tables.push(table));
        assert forall|i: int| 0 <= i < after.tables.len() implies {
            &&& (#[trigger] after.tables[i]).wf()
            &&& 1 <= after.tables[i].roster.len() <= after.limit
            &&& after.tables[i].id < after.next_id
        } by {
            if i < tables.len() {
                assert(after.tables[i] == tables[i]);
            }
        }
        assert forall|i: int, j: int|
            0 <= i < after.tables.len() && 0 <= j < after.tables.len() && i != j implies (
        #[trigger] after.tables[i]).id != (#[trigger] after.tables[j]).id by {
            if i < tables.len() {
                assert(after.tables[i] == tables[i]);
            }
            if j < tables.len() {
                assert(after.tables[j] == tables[j]);
            }
        }
        assert forall|i: int, j: int, p: u64|
            0 <= i < after.tables.len() && 0 <= j < after.tables.len() && i != j
                && #[trigger] after.tables[i].roster.contains(p) implies !#[trigger]
            after.tables[j].roster.contains(p) by {
            if i < tables.len() && j < tables.len() {
                assert(after.tables[i] == tables[i]);
                assert(after.tables[j] == tables[j]);
                assert(tables[i].roster.contains(p));
            } else if i < tables.len() {
                assert(after.tables[i] == tables[i]);
                if table.roster.contains(p) {
                    assert(p == player);
                    assert(!seats(player)(tables[i]));
                }
            } else {
                assert(after.tables[j] == tables[j]);
                assert(p == player);
                assert(!seats(player)(tables[j]));
            }
        }
        assert forall|i: int| 0 <= i < tables.len() implies !seats(player)(
            #[trigger] after.tables[i],
        ) by {
            assert(after.tables[i] == tables[i]);
            assert(!seats(player)(tables[i]));
        }
        lemma_first_with_is(after.tables, seats(player), tables.len() as int);
    }
}

/// However many players ask for a seat, one after another, the registry
/// stays well formed: no table ever seats more than the limit.
pub proof fn lemma_joins_never_overfill(registry: Registry, players: Seq<u64>)
    requires
        registry.wf(),
    ensures
        registry.joined_all(players).wf(),
        forall|i: int|
            0 <= i < registry.joined_all(players).tables.len() ==> (
            #[trigger] registry.joined_all(players).tables[i]).roster.len() <= registry.limit,
        registry.joined_all(players).limit == registry.limit,
    decreases players.len(),
{
    if players.len() > 0 {
        lemma_joins_never_overfill(registry, players.drop_last());
        lemma_joined_keeps_well_formed(registry.joined_all(players.drop_last()), players.last());
    }
}

/// A registry stays well formed when a table is changed for one that goes
/// by the same number and seats some of the same players, and at least one.
pub proof fn lemma_with_table(registry: Registry, place: int, table: Table)
    requires
        registry.wf(),
        0 <= place < registry.tables.len(),
        table.wf(),
        table.id == registry.tables[place].id,
        table.roster.len() >= 1,
        table.roster.len() <= registry.limit,
        forall|player: u64|
            table.roster.contains(player) ==> registry.tables[place].roster.contains(player),
    ensures
        registry.with_table(place, table).wf(),
{
    let tables = registry.tables;
    let after = registry.with_table(place, table);
    assert forall|i: int| 0 <= i < after.tables.len() implies {
        &&& (#[trigger] after.tables[i]).wf()
        &&& 1 <= after.tables[i].roster.len() <= after.limit
        &&& after.tables[i].id < after.next_id
    } by {
        if i != place {
            assert(after.tables[i] == tables[i]);
        } else {
            assert(tables[place].id < registry.next_id);
        }
    }
    assert forall|i: int, j: int|
        0 <= i < after.tables.len() && 0 <= j < after.tables.len() && i != j implies (
    #[trigger] after.tables[i]).id != (#[trigger] after.tables[j]).id by {
        assert(after.tables[i].id == tables[i].id);
        assert(after.tables[j].id == tables[j].id);
    }
    assert forall|i: int, j: int, p: u64|
        0 <= i < after.tables.len() && 0 <= j < after.tables.len() && i != j
            && #[trigger] after.tables[i].roster.contains(p) implies !#[trigger]
        after.tables[j].roster.contains(p) by {
        assert(tables[i].roster.contains(p));
        assert(!tables[j].roster.contains(p));
    }
}

/// A registry stays well formed when a table is retired, and the number of
/// the table goes out of use.
pub proof fn lemma_without_table(registry: Registry, place: int)
    requires
        registry.wf(),
        0 <= place < registry.tables.len(),
    ensures
        (Registry { tables: registry.tables.remove(place), ..registry }).wf(),
        forall|i: int|
            0 <= i < registry.tables.remove(place).len() ==> (#[trigger] registry.tables.remove(
                place,
            )[i]).id != registry.tables[place].id,
{
    let tables = registry.tables;
    let rest = tables.remove(place);
    let skip = |i: int|
        if i < place {
            i
        } else {
            i + 1
        };
    assert forall|i: int| 0 <= i < rest.len() implies #[trigger] rest[i] == tables[skip(i)] by {}
    assert forall|i: int| 0 <= i < rest.len() implies {
        &&& (#[trigger] rest[i]).wf()
        &&& 1 <= rest[i].roster.len() <= registry.limit
        &&& rest[i].id < registry.next_id
        &&& rest[i].id != tables[place].id
    } by {
        assert(rest[i] == tables[skip(i)]);
    }
    assert forall|i: int, j: int| 0 <= i < rest.len() && 0 <= j < rest.len() && i != j implies (
    #[trigger] rest[i]).id != (#[trigger] rest[j]).id by {
        assert(rest[i] == tables[skip(i)]);
        assert(rest[j] == tables[skip(j)]);
    }
    assert forall|i: int, j: int, p: u64|
        0 <= i < rest.len() && 0 <= j < rest.len() && i != j && #[trigger] rest[i].roster.contains(
            p,
        ) implies !#[trigger] rest[j].roster.contains(p) by {
        assert(rest[i] == tables[skip(i)]);
        assert(rest[j] == tables[skip(j)]);
        assert(tables[skip(i)].roster.contains(p));
        assert(!tables[skip(j)].roster.contains(p));
    }
}

/// A registry stays well formed without its tables, and when its next
/// number moves on.
pub proof fn lemma_without_tables(registry: Registry)
    requires
        registry.wf(),
    ensures
        (Registry { tables: Seq::empty(), ..registry }).wf(),
        registry.next_id < u32::MAX ==> (Registry {
            next_id: (registry.next_id + 1) as u32,
            ..registry
        }).wf(),
        registry.next_id < u32::MAX ==> (Registry {
            tables: Seq::empty(),
            next_id: (registry.next_id + 1) as u32,
            ..registry
        }).wf(),
{
    let moved = Registry { next_id: (registry.next_id + 1) as u32, ..registry };
    if registry.next_id < u32::MAX {
        assert forall|i: int| 0 <= i < moved.tables.len() implies {
            &&& (#[trigger] moved.tables[i]).wf()
            &&& 1 <= moved.tables[i].roster.len() <= moved.limit
            &&& moved.tables[i].id < moved.next_id
        } by {
            assert(registry.tables[i].wf());
        }
    }
}

/// Leaving keeps the registry well formed. The player who left sits at no
/// table any more, and where they were the last at their table, the table
/// is gone and its number with it.
pub proof fn lemma_left_keeps_well_formed(registry: Registry, player: u64, paid: bool)
    requires
        registry.wf(),
    ensures
        registry.left(player, paid).wf(),
        first_with(registry.left(player, paid).tables, seats(player)) >= registry.left(
            player,
            paid,
        ).tables.len(),
        ({
            let seat = first_with(registry.tables, seats(player));
            let after = registry.left(player, paid);
            seat < registry.tables.len() && registry.tables[seat].roster.len() == 1 ==> {
                &&& after.tables.len() == registry.tables.len() - 1
                &&& forall|i: int|
                    0 <= i < after.tables.len() ==> (#[trigger] after.tables[i]).id
                        != registry.tables[seat].id
            }
        }),
{
    let tables = registry.tables;
    let seat = first_with(tables, seats(player));
    let after = registry.left(player, paid);
    lemma_first_with(tables, seats(player));
    if seat < tables.len() {
        let table = table_after_departure(tables[seat], player, paid);
        assert(tables[seat].wf());
        lemma_table_after_departure(tables[seat], player, paid);
        lemma_departure_keeps_the_others(tables[seat], player);
        let retired = table.roster.len() == 0;
        if retired {
            lemma_without_table(registry, seat);
        } else {
            lemma_with_table(registry, seat, table);
        }
        assert forall|i: int| 0 <= i < after.tables.len() implies !seats(player)(
            #[trigger] after.tables[i],
        ) by {
            if retired {
                let k = if i < seat {
                    i
                } else {
                    i + 1
                };
                assert(after.tables[i] == tables[k]);
                assert(tables[seat].roster.contains(player));
                assert(!tables[k].roster.contains(player));
            } else if i != seat {
                assert(after.tables[i] == tables[i]);
                assert(tables[seat].roster.contains(player));
                assert(!tables[i].roster.contains(player));
            }
        }
    }
    lemma_first_with_is(after.tables, seats(player), after.tables.len() as int);
}

} // verus!
