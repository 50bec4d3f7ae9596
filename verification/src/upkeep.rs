//! Why a table stays well formed: what pushing, filtering and carrying do
//! to the wagers of a betting area and to the roster.

use crate::bet::{Bet, Outcome};
use crate::board::not_owned_by;
use crate::position::Position;
use crate::table::{all_in_play, in_play, not_player, numbered_below, numbers_differ};
use vstd::prelude::*;

verus! {

/// A seated player has a place in the roster, and the roster with one more
/// holds the old ones and the new one.
pub(crate) proof fn lemma_roster_push(roster: Seq<u64>, player: u64)
    requires
        roster.no_duplicates(),
        !roster.contains(player),
    ensures
        roster.push(player).no_duplicates(),
        roster.push(player).contains(player),
        forall|id: u64| roster.contains(id) ==> roster.push(player).contains(id),
        forall|id: u64| roster.push(player).contains(id) ==> id == player || roster.contains(id),
{
    let more = roster.push(player);
    assert(more[roster.len() as int] == player);
    assert forall|id: u64| roster.contains(id) implies more.contains(id) by {
        let k = choose|k: int| 0 <= k < roster.len() && roster[k] == id;
        assert(more[k] == id);
    }
    assert forall|id: u64| more.contains(id) implies id == player || roster.contains(id) by {
        let k = choose|k: int| 0 <= k < more.len() && more[k] == id;
        if k < roster.len() {
            assert(roster[k] == id);
        }
    }
    assert forall|i: int, j: int|
        0 <= i < more.len() && 0 <= j < more.len() && i != j implies more[i] != more[j] by {
        if i < roster.len() && j < roster.len() {
        } else if i < roster.len() {
            assert(roster.contains(roster[i]));
        } else {
            assert(roster.contains(roster[j]));
        }
    }
}

/// A roster without one of its seats seats nobody twice, and seats
/// everybody else who was seated.
pub(crate) proof fn lemma_roster_without(roster: Seq<u64>, seat: int)
    requires
        roster.no_duplicates(),
        0 <= seat < roster.len(),
    ensures
        roster.index_of(roster[seat]) == seat,
        roster.remove(seat).no_duplicates(),
        !roster.remove(seat).contains(roster[seat]),
        forall|id: u64|
            roster.contains(id) && id != roster[seat] ==> roster.remove(seat).contains(id),
        forall|id: u64| roster.remove(seat).contains(id) ==> roster.contains(id),
{
    let rest = roster.remove(seat);
    assert(roster.contains(roster[seat]));
    assert forall|id: u64| roster.contains(id) && id != roster[seat] implies rest.contains(id) by {
        let k = choose|k: int| 0 <= k < roster.len() && roster[k] == id;
        if k < seat {
            assert(rest[k] == id);
        } else {
            assert(rest[k - 1] == id);
        }
    }
    assert forall|id: u64| rest.contains(id) implies roster.contains(id) by {
        let k = choose|k: int| 0 <= k < rest.len() && rest[k] == id;
        if k < seat {
            assert(roster[k] == id);
        } else {
            assert(roster[k + 1] == id);
        }
    }
}

/// What is left of a sequence without repeats has none.
pub(crate) proof fn lemma_filter_no_duplicates(ids: Seq<u64>, pred: spec_fn(u64) -> bool)
    requires
        ids.no_duplicates(),
    ensures
        ids.filter(pred).no_duplicates(),
        forall|i: int|
            0 <= i < ids.filter(pred).len() ==> ids.contains(#[trigger] ids.filter(pred)[i])
                && pred(ids.filter(pred)[i]),
    decreases ids.len(),
{
    reveal(Seq::filter);
    if ids.len() > 0 {
        let rest = ids.drop_last();
        let last = ids.last();
        lemma_filter_no_duplicates(rest, pred);
        let kept = rest.filter(pred);
        let all = ids.filter(pred);
        assert forall|i: int| 0 <= i < kept.len() implies ids.contains(#[trigger] kept[i])
            && kept[i] != last by {
            assert(rest.contains(kept[i]));
            let j = choose|j: int| 0 <= j < rest.len() && rest[j] == kept[i];
            assert(ids[j] == kept[i]);
        }
        assert forall|i: int| 0 <= i < all.len() implies ids.contains(#[trigger] all[i]) && pred(
            all[i],
        ) by {
            if i < kept.len() {
                assert(all[i] == kept[i]);
            } else {
                assert(ids[ids.len() - 1] == all[i]);
            }
        }
        assert forall|i: int, j: int|
            0 <= i < all.len() && 0 <= j < all.len() && i != j implies all[i] != all[j] by {
            if i < kept.len() && j < kept.len() {
                assert(all[i] == kept[i]);
                assert(all[j] == kept[j]);
            } else if i < kept.len() {
                assert(all[i] == kept[i]);
            } else {
                assert(all[j] == kept[j]);
            }
        }
    }
}

/// Without a player, those who are ready are still seated.
pub(crate) proof fn lemma_ready_without(roster: Seq<u64>, seat: int, ready: Seq<u64>)
    requires
        roster.no_duplicates(),
        0 <= seat < roster.len(),
        ready.no_duplicates(),
        forall|i: int| 0 <= i < ready.len() ==> roster.contains(#[trigger] ready[i]),
    ensures
        ready.filter(not_player(roster[seat])).no_duplicates(),
        forall|i: int|
            0 <= i < ready.filter(not_player(roster[seat])).len() ==> roster.remove(seat).contains(
                #[trigger] ready.filter(not_player(roster[seat]))[i],
            ),
{
    let kept = ready.filter(not_player(roster[seat]));
    lemma_filter_no_duplicates(ready, not_player(roster[seat]));
    lemma_roster_without(roster, seat);
    assert forall|i: int| 0 <= i < kept.len() implies roster.remove(seat).contains(
        #[trigger] kept[i],
    ) by {
        assert(ready.contains(kept[i]));
        let j = choose|j: int| 0 <= j < ready.len() && ready[j] == kept[i];
        assert(roster.contains(ready[j]));
        assert(not_player(roster[seat])(kept[i]));
    }
}

/// Wagers in play stay in play when one more joins them.
pub(crate) proof fn lemma_in_play_push(roster: Seq<u64>, bets: Seq<Bet>, bet: Bet)
    requires
        all_in_play(roster, bets),
        in_play(roster, bet),
    ensures
        all_in_play(roster, bets.push(bet)),
{
    assert forall|i: int| 0 <= i < bets.push(bet).len() implies in_play(
        roster,
        #[trigger] bets.push(bet)[i],
    ) by {
        if i < bets.len() {
            assert(in_play(roster, bets[i]));
        }
    }
}

/// Wagers in play stay in play when they are carried.
pub(crate) proof fn lemma_in_play_carried(roster: Seq<u64>, bets: Seq<Bet>)
    requires
        all_in_play(roster, bets),
    ensures
        all_in_play(roster, bets.map_values(|bet: Bet| bet.after(Outcome::Carried))),
{
    let carried = bets.map_values(|bet: Bet| bet.after(Outcome::Carried));
    assert forall|i: int| 0 <= i < carried.len() implies in_play(roster, #[trigger] carried[i]) by {
        assert(in_play(roster, bets[i]));
        bets[i].lemma_after(Outcome::Carried);
    }
}

/// Those that are left of wagers in play are in play, and are of the kind
/// that was kept.
pub(crate) proof fn lemma_in_play_filter(
    roster: Seq<u64>,
    bets: Seq<Bet>,
    pred: spec_fn(Bet) -> bool,
)
    requires
        all_in_play(roster, bets),
    ensures
        all_in_play(roster, bets.filter(pred)),
        forall|i: int| 0 <= i < bets.filter(pred).len() ==> pred(#[trigger] bets.filter(pred)[i]),
{
    broadcast use vstd::seq_lib::group_filter_ensures;

    let kept = bets.filter(pred);
    assert forall|i: int| 0 <= i < kept.len() implies in_play(roster, #[trigger] kept[i]) by {
        assert(kept.contains(kept[i]));
        bets.lemma_filter_contains_rev(pred, kept[i]);
        let j = choose|j: int| 0 <= j < bets.len() && bets[j] == kept[i];
        assert(in_play(roster, bets[j]));
    }
}

/// Without a player, the wagers of the others are still in play.
pub(crate) proof fn lemma_in_play_without(roster: Seq<u64>, seat: int, bets: Seq<Bet>)
    requires
        roster.no_duplicates(),
        0 <= seat < roster.len(),
        all_in_play(roster, bets),
    ensures
        all_in_play(roster.remove(seat), bets.filter(not_owned_by(roster[seat]))),
{
    let kept = bets.filter(not_owned_by(roster[seat]));
    lemma_in_play_filter(roster, bets, not_owned_by(roster[seat]));
    lemma_roster_without(roster, seat);
    assert forall|i: int| 0 <= i < kept.len() implies in_play(
        roster.remove(seat),
        #[trigger] kept[i],
    ) by {
        assert(in_play(roster, kept[i]));
        assert(not_owned_by(roster[seat])(kept[i]));
    }
}

/// No two wagers of `bets` go by one number.
pub(crate) open spec fn numbers_differ_within(bets: Seq<Bet>) -> bool {
    forall|i: int, j: int|
        0 <= i < bets.len() && 0 <= j < bets.len() && i != j ==> (#[trigger] bets[i])@.id != (
        #[trigger] bets[j])@.id
}

/// A wager of `bets` goes by the number `id`.
pub(crate) open spec fn number_appears(id: u64, bets: Seq<Bet>) -> bool {
    exists|j: int| 0 <= j < bets.len() && (#[trigger] bets[j])@.id == id
}

/// The wagers of `kept` go by numbers of `from`, each by one of its own.
pub(crate) open spec fn drawn_from(kept: Seq<Bet>, from: Seq<Bet>) -> bool {
    &&& forall|i: int| 0 <= i < kept.len() ==> number_appears((#[trigger] kept[i])@.id, from)
    &&& numbers_differ_within(kept)
}

/// Wagers that go by numbers of their own are drawn from themselves.
pub(crate) proof fn lemma_drawn_from_itself(bets: Seq<Bet>)
    requires
        numbers_differ_within(bets),
    ensures
        drawn_from(bets, bets),
{
}

/// Wagers, carried, are drawn from what they were.
pub(crate) proof fn lemma_drawn_from_carried(bets: Seq<Bet>)
    requires
        numbers_differ_within(bets),
    ensures
        drawn_from(bets.map_values(|bet: Bet| bet.after(Outcome::Carried)), bets),
{
    let carried = bets.map_values(|bet: Bet| bet.after(Outcome::Carried));
    assert forall|i: int| 0 <= i < carried.len() implies (#[trigger] carried[i])@.id
        == bets[i]@.id by {
        bets[i].lemma_after(Outcome::Carried);
    }
    assert forall|i: int| 0 <= i < carried.len() implies number_appears(
        (#[trigger] carried[i])@.id,
        bets,
    ) by {
        assert(bets[i]@.id == carried[i]@.id);
    }
    assert forall|i: int, j: int|
        0 <= i < carried.len() && 0 <= j < carried.len() && i != j implies (
    #[trigger] carried[i])@.id != (#[trigger] carried[j])@.id by {
        assert(bets[i]@.id != bets[j]@.id);
    }
}

/// Those that are left of wagers are drawn from them.
pub(crate) proof fn lemma_drawn_from_filter(bets: Seq<Bet>, pred: spec_fn(Bet) -> bool)
    requires
        numbers_differ_within(bets),
    ensures
        drawn_from(bets.filter(pred), bets),
    decreases bets.len(),
{
    reveal(Seq::filter);
    if bets.len() > 0 {
        let rest = bets.drop_last();
        let last = bets.last();
        assert forall|i: int, j: int|
            0 <= i < rest.len() && 0 <= j < rest.len() && i != j implies (#[trigger] rest[i])@.id
            != (#[trigger] rest[j])@.id by {
            assert(bets[i]@.id != bets[j]@.id);
        }
        lemma_drawn_from_filter(rest, pred);
        let kept = rest.filter(pred);
        let all = bets.filter(pred);
        assert forall|i: int| 0 <= i < kept.len() implies number_appears(
            (#[trigger] kept[i])@.id,
            bets,
        ) && kept[i]@.id != last@.id by {
            assert(number_appears(kept[i]@.id, rest));
            let j = choose|j: int| 0 <= j < rest.len() && (#[trigger] rest[j])@.id == kept[i]@.id;
            assert(bets[j]@.id == kept[i]@.id);
            assert(bets[j]@.id != bets[bets.len() - 1]@.id);
        }
        assert forall|i: int| 0 <= i < all.len() implies number_appears(
            (#[trigger] all[i])@.id,
            bets,
        ) by {
            if i < kept.len() {
                assert(all[i] == kept[i]);
            } else {
                assert(all[i] == last);
                assert(bets[bets.len() - 1]@.id == last@.id);
            }
        }
        assert forall|i: int, j: int| 0 <= i < all.len() && 0 <= j < all.len() && i != j implies (
        #[trigger] all[i])@.id != (#[trigger] all[j])@.id by {
            if i < kept.len() && j < kept.len() {
                assert(all[i] == kept[i]);
                assert(all[j] == kept[j]);
            } else if i < kept.len() {
                assert(all[i] == kept[i]);
            } else {
                assert(all[j] == kept[j]);
            }
        }
    }
}

/// The wagers of every area of a board that is numbered soundly go by
/// numbers of their own.
pub(crate) proof fn lemma_numbers_differ_within(wagers: Map<Position, Seq<Bet>>, position: Position)
    requires
        numbers_differ(wagers),
    ensures
        numbers_differ_within(wagers[position]),
{
    let bets = wagers[position];
    assert forall|i: int, j: int| 0 <= i < bets.len() && 0 <= j < bets.len() && i != j implies (
    #[trigger] bets[i])@.id != (#[trigger] bets[j])@.id by {
        assert(wagers[position][i]@.id != wagers[position][j]@.id);
    }
}

/// A board whose areas are drawn from those of a board that is numbered
/// soundly is numbered soundly.
pub(crate) proof fn lemma_numbers_still_differ(
    before: Map<Position, Seq<Bet>>,
    after: Map<Position, Seq<Bet>>,
    next: u64,
)
    requires
        numbers_differ(before),
        forall|position: Position| numbered_below(next, #[trigger] before[position]),
        forall|position: Position| drawn_from(#[trigger] after[position], before[position]),
    ensures
        numbers_differ(after),
        forall|position: Position| numbered_below(next, #[trigger] after[position]),
{
    assert forall|position: Position| numbered_below(next, #[trigger] after[position]) by {
        let kept = after[position];
        let from = before[position];
        assert(drawn_from(kept, from));
        assert(numbered_below(next, from));
        assert forall|i: int| 0 <= i < kept.len() implies (#[trigger] kept[i])@.id < next by {
            assert(number_appears(kept[i]@.id, from));
            let j = choose|j: int| 0 <= j < from.len() && (#[trigger] from[j])@.id == kept[i]@.id;
            assert(from[j]@.id < next);
        }
    }
    assert forall|p: Position, i: int, q: Position, j: int|
        0 <= i < after[p].len() && 0 <= j < after[q].len() && (p != q || i != j) implies (
    #[trigger] after[p][i])@.id != (#[trigger] after[q][j])@.id by {
        assert(drawn_from(after[p], before[p]));
        assert(drawn_from(after[q], before[q]));
        if p == q {
        } else {
            assert(number_appears(after[p][i]@.id, before[p]));
            assert(number_appears(after[q][j]@.id, before[q]));
            let a = choose|a: int|
                0 <= a < before[p].len() && (#[trigger] before[p][a])@.id == after[p][i]@.id;
            let b = choose|b: int|
                0 <= b < before[q].len() && (#[trigger] before[q][b])@.id == after[q][j]@.id;
            assert(before[p][a]@.id != before[q][b]@.id);
        }
    }
}

/// A board stays numbered soundly when a wager goes on it under the next
/// number.
pub(crate) proof fn lemma_numbers_after_placing(
    before: Map<Position, Seq<Bet>>,
    next: u64,
    position: Position,
    bet: Bet,
)
    requires
        numbers_differ(before),
        forall|position: Position| numbered_below(next, #[trigger] before[position]),
        bet@.id == next,
        next < u64::MAX,
    ensures
        numbers_differ(before.insert(position, before[position].push(bet))),
        forall|other: Position|
            numbered_below(
                (next + 1) as u64,
                #[trigger] before.insert(position, before[position].push(bet))[other],
            ),
{
    let after = before.insert(position, before[position].push(bet));
    assert forall|other: Position| numbered_below((next + 1) as u64, #[trigger] after[other]) by {
        assert(numbered_below(next, before[other]));
        let bets = after[other];
        assert forall|i: int| 0 <= i < bets.len() implies (#[trigger] bets[i])@.id < next + 1 by {
            if other == position && i == before[position].len() {
            } else {
                assert(bets[i] == before[other][i]);
            }
        }
    }
    assert forall|p: Position, i: int, q: Position, j: int|
        0 <= i < after[p].len() && 0 <= j < after[q].len() && (p != q || i != j) implies (
    #[trigger] after[p][i])@.id != (#[trigger] after[q][j])@.id by {
        let new_p = p == position && i == before[position].len();
        let new_q = q == position && j == before[position].len();
        assert(numbered_below(next, before[p]));
        assert(numbered_below(next, before[q]));
        if new_p {
            assert(after[q][j] == before[q][j]);
        } else if new_q {
            assert(after[p][i] == before[p][i]);
        } else {
            assert(after[p][i] == before[p][i]);
            assert(after[q][j] == before[q][j]);
        }
    }
}

} // verus!
