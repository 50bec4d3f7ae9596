use table_games::bet::{BetError, BetStatus, Outcome};
use table_games::crapless::{CraplessCraps, GameState, LeavePolicy, TableEvent};
use table_games::ledger::Directory;
use table_games::odds::{PayTable, Ratio};
use table_games::position::Position;
use table_games::rules::{Roll, TablePhase};

fn roll(first: u8, second: u8) -> Roll {
    Roll::new(first, second).unwrap()
}

/// A directory with one account of 100 and a table that seats it.
fn one_player() -> (Directory, u64, CraplessCraps) {
    let mut directory = Directory::new();
    let ann = directory.open("Ann".to_string(), 100).unwrap();
    let table = CraplessCraps::new(1, vec![ann]);
    (directory, ann, table)
}

/// The same, after a line wager of 10 and a come-out five.
fn point_on_five() -> (Directory, u64, CraplessCraps) {
    let (mut directory, ann, mut table) = one_player();
    table.place_wager(&mut directory, ann, 10, Position::PassLine).unwrap();
    table.close_betting().unwrap();
    table.roll(&mut directory, roll(2, 3)).unwrap();
    (directory, ann, table)
}

#[test]
fn new_table_starts_betting_on_the_come_out() {
    let (_, ann, table) = one_player();
    assert_eq!(table.game_id(), 1);
    assert_eq!(table.game_name(), "Crapless");
    assert!(table.has_player(ann));
    assert!(!table.has_player(ann + 1));
    assert!(table.has_players());
    assert_eq!(table.player_count(), 1);
    assert!(!table.is_halted());
    assert_eq!(table.game_state().state(), GameState::Betting);
    assert!(table.game_state().is_come_out_roll());
    assert_eq!(table.game_state().point(), None);
    assert!(table.game_state().get_bet(Position::PassLine).is_none());
}

#[test]
fn come_out_seven_pays_the_line() {
    let (mut directory, ann, mut table) = one_player();
    let bet = table.place_wager(&mut directory, ann, 10, Position::PassLine).unwrap();
    assert_eq!((bet.amount(), bet.owner(), bet.status()), (10, ann, BetStatus::Active));
    assert_eq!(directory.balance(ann), Some(90));
    table.close_betting().unwrap();
    let report = table.roll(&mut directory, roll(3, 4)).unwrap();
    assert_eq!(directory.balance(ann), Some(110));
    assert_eq!(report.total, 7);
    assert_eq!(report.phase, TablePhase::ComeOut);
    assert_eq!(report.settled.len(), 1);
    assert_eq!(report.settled[0].position, Position::PassLine);
    assert_eq!(report.settled[0].owner, ann);
    assert_eq!(report.settled[0].stake, 10);
    assert_eq!(report.settled[0].outcome, Outcome::Won);
    assert_eq!(report.settled[0].credit, 20);
    assert!(table.game_state().is_come_out_roll());
    assert_eq!(table.game_state().point(), None);
    assert_eq!(table.game_state().state(), GameState::Betting);
    assert!(table.game_state().get_bet(Position::PassLine).is_none());
}

#[test]
fn come_out_five_sets_the_point_and_carries_the_line() {
    let (directory, ann, table) = point_on_five();
    assert_eq!(directory.balance(ann), Some(90));
    assert_eq!(table.game_state().point(), Some(5));
    assert!(!table.game_state().is_come_out_roll());
    assert_eq!(table.game_state().state(), GameState::Betting);
    let line = table.game_state().get_bet(Position::PassLine).unwrap();
    assert_eq!(line.len(), 1);
    assert_eq!(line[0].status(), BetStatus::Carried);
    assert_eq!(line[0].amount(), 10);
    assert_eq!(line[0].owner(), ann);
}

#[test]
fn come_out_five_reports_the_carry() {
    let (mut directory, ann, mut table) = one_player();
    table.place_wager(&mut directory, ann, 10, Position::PassLine).unwrap();
    table.close_betting().unwrap();
    let report = table.roll(&mut directory, roll(1, 4)).unwrap();
    assert_eq!(report.total, 5);
    assert_eq!(report.phase, TablePhase::PointOn(5));
    assert_eq!(report.settled.len(), 1);
    assert_eq!(report.settled[0].outcome, Outcome::Carried);
    assert_eq!(report.settled[0].credit, 0);
}

#[test]
fn point_made_pays_the_line_and_clears_the_point() {
    let (mut directory, ann, mut table) = point_on_five();
    table.close_betting().unwrap();
    let report = table.roll(&mut directory, roll(4, 1)).unwrap();
    assert_eq!(report.settled.len(), 1);
    assert_eq!(report.settled[0].outcome, Outcome::Won);
    assert_eq!(report.settled[0].credit, 20);
    assert_eq!(report.phase, TablePhase::ComeOut);
    assert_eq!(directory.balance(ann), Some(110));
    assert_eq!(table.game_state().point(), None);
    assert!(table.game_state().is_come_out_roll());
    assert!(table.game_state().get_bet(Position::PassLine).is_none());
}

#[test]
fn seven_out_loses_the_line_and_clears_the_point() {
    let (mut directory, ann, mut table) = point_on_five();
    table.close_betting().unwrap();
    let report = table.roll(&mut directory, roll(6, 1)).unwrap();
    assert_eq!(report.settled.len(), 1);
    assert_eq!(report.settled[0].outcome, Outcome::Lost);
    assert_eq!(report.settled[0].credit, 0);
    assert_eq!(report.phase, TablePhase::ComeOut);
    assert_eq!(directory.balance(ann), Some(90));
    assert_eq!(table.game_state().point(), None);
    assert!(table.game_state().is_come_out_roll());
    assert!(table.game_state().get_bet(Position::PassLine).is_none());
}

#[test]
fn other_totals_leave_the_line_in_place() {
    let (mut directory, ann, mut table) = point_on_five();
    for thrown in [roll(4, 4), roll(1, 1), roll(6, 6), roll(5, 4)] {
        table.close_betting().unwrap();
        let report = table.roll(&mut directory, thrown).unwrap();
        assert_eq!(report.phase, TablePhase::PointOn(5));
        assert_eq!(report.settled.len(), 1);
        assert_eq!(report.settled[0].outcome, Outcome::Carried);
        assert_eq!(directory.balance(ann), Some(90));
        assert_eq!(table.game_state().get_bet(Position::PassLine).unwrap().len(), 1);
    }
}

#[test]
fn a_settled_wager_is_gone_from_the_board() {
    let (mut directory, ann, mut table) = one_player();
    table.place_wager(&mut directory, ann, 10, Position::FIELD).unwrap();
    table.close_betting().unwrap();
    table.roll(&mut directory, roll(1, 1)).unwrap();
    assert_eq!(directory.balance(ann), Some(90 + 10 + 20));
    assert!(table.game_state().get_bet(Position::FIELD).is_none());
    table.close_betting().unwrap();
    let again = table.roll(&mut directory, roll(1, 1)).unwrap();
    assert!(again.settled.is_empty());
    assert_eq!(directory.balance(ann), Some(120));
}

#[test]
fn seven_out_and_propositions_resolve_side_by_side() {
    let (mut directory, ann, mut table) = point_on_five();
    table.place_wager(&mut directory, ann, 5, Position::OneRollSeven).unwrap();
    table.place_wager(&mut directory, ann, 5, Position::COME).unwrap();
    table.place_wager(&mut directory, ann, 6, Position::Six).unwrap();
    table.place_wager(&mut directory, ann, 4, Position::HardEight).unwrap();
    table.place_wager(&mut directory, ann, 3, Position::FIELD).unwrap();
    assert_eq!(directory.balance(ann), Some(90 - 23));
    table.close_betting().unwrap();
    let report = table.roll(&mut directory, roll(3, 4)).unwrap();
    assert_eq!(report.settled.len(), 6);
    for record in &report.settled {
        if record.position == Position::OneRollSeven {
            assert_eq!(record.outcome, Outcome::Won);
            assert_eq!(record.credit, 5 + 20);
        } else {
            assert_eq!(record.outcome, Outcome::Lost);
            assert_eq!(record.credit, 0);
        }
    }
    assert_eq!(directory.balance(ann), Some(90 - 23 + 25));
    assert_eq!(table.game_state().point(), None);
}

#[test]
fn report_lists_wagers_by_area_in_the_order_placed() {
    let mut directory = Directory::new();
    let ann = directory.open("Ann".to_string(), 100).unwrap();
    let bob = directory.open("Bob".to_string(), 100).unwrap();
    let mut table = CraplessCraps::new(1, vec![ann, bob]);
    table.place_wager(&mut directory, bob, 2, Position::PassLine).unwrap();
    table.place_wager(&mut directory, ann, 3, Position::FIELD).unwrap();
    table.place_wager(&mut directory, bob, 4, Position::FIELD).unwrap();
    table.place_wager(&mut directory, ann, 5, Position::HardTen).unwrap();
    table.close_betting().unwrap();
    let report = table.roll(&mut directory, roll(5, 5)).unwrap();
    let seen: Vec<(Position, u64, u32, Outcome, u64)> = report
        .settled
        .iter()
        .map(|r| (r.position, r.owner, r.stake, r.outcome, r.credit))
        .collect();
    assert_eq!(
        seen,
        vec![
            (Position::FIELD, ann, 3, Outcome::Won, 6),
            (Position::FIELD, bob, 4, Outcome::Won, 8),
            (Position::PassLine, bob, 2, Outcome::Carried, 0),
            (Position::HardTen, ann, 5, Outcome::Won, 5 + 35),
        ]
    );
    assert_eq!(directory.balance(ann), Some(100 - 8 + 6 + 40));
    assert_eq!(directory.balance(bob), Some(100 - 6 + 8));
    assert_eq!(report.phase, TablePhase::PointOn(10));
}

#[test]
fn numbers_pay_their_odds_rounded_down() {
    let (mut directory, ann, mut table) = point_on_five();
    table.place_wager(&mut directory, ann, 10, Position::Six).unwrap();
    table.place_wager(&mut directory, ann, 10, Position::Three).unwrap();
    table.close_betting().unwrap();
    let six = table.roll(&mut directory, roll(3, 3)).unwrap();
    let paid: Vec<u64> = six.settled.iter().map(|r| r.credit).collect();
    assert_eq!(paid, vec![0, 10 + 11, 0]);
    table.close_betting().unwrap();
    let three = table.roll(&mut directory, roll(2, 1)).unwrap();
    let paid: Vec<u64> = three.settled.iter().map(|r| r.credit).collect();
    assert_eq!(paid, vec![10 + 27, 0]);
    assert_eq!(directory.balance(ann), Some(90 - 20 + 21 + 37));
}

#[test]
fn placement_is_refused_by_phase_mode_seat_amount_and_funds() {
    let (mut directory, ann, mut table) = one_player();
    let bob = directory.open("Bob".to_string(), 100).unwrap();
    assert!(matches!(
        table.place_wager(&mut directory, bob, 10, Position::PassLine),
        Err(BetError::NotSeated)
    ));
    assert!(matches!(
        table.place_wager(&mut directory, ann, 10, Position::COME),
        Err(BetError::InvalidPosition)
    ));
    assert!(matches!(
        table.place_wager(&mut directory, ann, 10, Position::Eight),
        Err(BetError::InvalidPosition)
    ));
    assert!(matches!(
        table.place_wager(&mut directory, ann, 0, Position::PassLine),
        Err(BetError::InvalidAmount)
    ));
    match table.place_wager(&mut directory, ann, 101, Position::PassLine) {
        Err(BetError::NotEnoughMoney(name)) => assert_eq!(name, "Ann"),
        other => panic!("unexpected: {:?}", other),
    }
    table.close_betting().unwrap();
    assert!(matches!(
        table.place_wager(&mut directory, ann, 10, Position::PassLine),
        Err(BetError::WrongMode)
    ));
    assert!(matches!(
        table.withdraw_wager(&mut directory, ann, Position::PassLine),
        Err(BetError::WrongMode)
    ));
    assert!(matches!(table.close_betting(), Err(BetError::WrongMode)));
    assert_eq!(directory.balance(ann), Some(100));
    assert_eq!(directory.balance(bob), Some(100));
    table.roll(&mut directory, roll(2, 2)).unwrap();
    assert!(matches!(
        table.place_wager(&mut directory, ann, 10, Position::PassLine),
        Err(BetError::InvalidPosition)
    ));
    assert!(table.place_wager(&mut directory, ann, 10, Position::COME).is_ok());
    assert!(matches!(
        table.roll(&mut directory, roll(2, 2)),
        Err(BetError::WrongMode)
    ));
}

#[test]
fn a_seated_player_without_an_account_is_refused() {
    let mut directory = Directory::new();
    let mut table = CraplessCraps::new(1, vec![5]);
    assert!(matches!(
        table.place_wager(&mut directory, 5, 10, Position::PassLine),
        Err(BetError::UnknownAccount)
    ));
}

#[test]
fn withdrawal_pushes_the_players_wagers_on_one_area() {
    let mut directory = Directory::new();
    let ann = directory.open("Ann".to_string(), 100).unwrap();
    let bob = directory.open("Bob".to_string(), 100).unwrap();
    let mut table = CraplessCraps::new(1, vec![ann, bob]);
    table.place_wager(&mut directory, ann, 10, Position::FIELD).unwrap();
    table.place_wager(&mut directory, bob, 20, Position::FIELD).unwrap();
    table.place_wager(&mut directory, ann, 30, Position::FIELD).unwrap();
    table.place_wager(&mut directory, ann, 5, Position::PassLine).unwrap();
    let records = table.withdraw_wager(&mut directory, ann, Position::FIELD).unwrap();
    let seen: Vec<(u32, Outcome, u64)> =
        records.iter().map(|r| (r.stake, r.outcome, r.credit)).collect();
    assert_eq!(seen, vec![(10, Outcome::Pushed, 10), (30, Outcome::Pushed, 30)]);
    assert_eq!(directory.balance(ann), Some(95));
    assert_eq!(directory.balance(bob), Some(80));
    let field = table.game_state().get_bet(Position::FIELD).unwrap();
    assert_eq!(field.len(), 1);
    assert_eq!(field[0].owner(), bob);
    assert_eq!(table.game_state().get_bet(Position::PassLine).unwrap().len(), 1);
    assert!(matches!(
        table.withdraw_wager(&mut directory, ann, Position::FIELD),
        Err(BetError::InvalidPosition)
    ));
    assert!(matches!(
        table.withdraw_wager(&mut directory, ann + 10, Position::FIELD),
        Err(BetError::NotSeated)
    ));
}

#[test]
fn a_roll_that_cannot_be_paid_halts_the_table_and_touches_nothing() {
    let mut directory = Directory::new();
    let ann = directory.open("Ann".to_string(), i32::MAX).unwrap();
    let bob = directory.open("Bob".to_string(), 100).unwrap();
    let mut table = CraplessCraps::new(1, vec![ann, bob]);
    table.place_wager(&mut directory, bob, 10, Position::PassLine).unwrap();
    table.place_wager(&mut directory, ann, 10, Position::PassLine).unwrap();
    table.close_betting().unwrap();
    assert!(matches!(
        table.roll(&mut directory, roll(3, 4)),
        Err(BetError::SettlementInvariantViolation)
    ));
    assert!(table.is_halted());
    assert_eq!(directory.balance(ann), Some(i32::MAX - 10));
    assert_eq!(directory.balance(bob), Some(90));
    assert_eq!(table.game_state().get_bet(Position::PassLine).unwrap().len(), 2);
    assert_eq!(table.game_state().state(), GameState::Rolling);
    assert!(matches!(
        table.roll(&mut directory, roll(1, 1)),
        Err(BetError::SettlementInvariantViolation)
    ));
    assert!(matches!(
        table.close_betting(),
        Err(BetError::SettlementInvariantViolation)
    ));
    assert!(matches!(
        table.place_wager(&mut directory, bob, 1, Position::FIELD),
        Err(BetError::SettlementInvariantViolation)
    ));
    assert!(matches!(
        table.withdraw_wager(&mut directory, bob, Position::PassLine),
        Err(BetError::SettlementInvariantViolation)
    ));
    assert_eq!(directory.balance(bob), Some(90));
}

#[test]
fn a_withdrawal_that_cannot_be_paid_halts_the_table() {
    let mut directory = Directory::new();
    let ann = directory.open("Ann".to_string(), 100).unwrap();
    let mut table = CraplessCraps::new(1, vec![ann]);
    table.place_wager(&mut directory, ann, 10, Position::FIELD).unwrap();
    assert!(directory.pay(ann, (i32::MAX - 95) as u64).is_ok());
    assert!(matches!(
        table.withdraw_wager(&mut directory, ann, Position::FIELD),
        Err(BetError::SettlementInvariantViolation)
    ));
    assert!(table.is_halted());
    assert_eq!(directory.balance(ann), Some(i32::MAX - 5));
    assert_eq!(table.game_state().get_bet(Position::FIELD).unwrap().len(), 1);
}

#[test]
fn leaving_refunds_the_stakes() {
    let mut directory = Directory::new();
    let ann = directory.open("Ann".to_string(), 100).unwrap();
    let bob = directory.open("Bob".to_string(), 100).unwrap();
    let mut table = CraplessCraps::new(1, vec![ann, bob]);
    table.place_wager(&mut directory, ann, 10, Position::PassLine).unwrap();
    table.place_wager(&mut directory, bob, 20, Position::PassLine).unwrap();
    table.place_wager(&mut directory, ann, 30, Position::HardSix).unwrap();
    let departure = table.remove_player(&mut directory, ann).unwrap();
    assert!(departure.paid);
    let seen: Vec<(Position, u32, Outcome, u64)> = departure
        .settled
        .iter()
        .map(|r| (r.position, r.stake, r.outcome, r.credit))
        .collect();
    assert_eq!(
        seen,
        vec![
            (Position::PassLine, 10, Outcome::Pushed, 10),
            (Position::HardSix, 30, Outcome::Pushed, 30),
        ]
    );
    assert_eq!(directory.balance(ann), Some(100));
    assert_eq!(directory.balance(bob), Some(80));
    assert!(!table.has_player(ann));
    assert!(table.has_player(bob));
    assert_eq!(table.player_count(), 1);
    assert!(table.game_state().get_bet(Position::HardSix).is_none());
    assert_eq!(table.game_state().get_bet(Position::PassLine).unwrap().len(), 1);
    assert!(table.remove_player(&mut directory, ann).is_none());
    assert!(matches!(
        table.place_wager(&mut directory, ann, 1, Position::FIELD),
        Err(BetError::NotSeated)
    ));
}

#[test]
fn leaving_forfeits_the_stakes_where_the_table_says_so() {
    let mut directory = Directory::new();
    let ann = directory.open("Ann".to_string(), 100).unwrap();
    let mut table =
        CraplessCraps::with_rules(4, vec![ann], LeavePolicy::Forfeit, PayTable::standard());
    table.place_wager(&mut directory, ann, 10, Position::PassLine).unwrap();
    let departure = table.remove_player(&mut directory, ann).unwrap();
    assert!(departure.paid);
    assert_eq!(departure.settled.len(), 1);
    assert_eq!(departure.settled[0].outcome, Outcome::Lost);
    assert_eq!(departure.settled[0].credit, 0);
    assert_eq!(directory.balance(ann), Some(90));
    assert!(!table.has_players());
    assert!(!table.is_halted());
}

#[test]
fn leaving_in_the_middle_of_a_roll_keeps_what_was_credited() {
    let (mut directory, ann, mut table) = point_on_five();
    table.place_wager(&mut directory, ann, 10, Position::FIELD).unwrap();
    table.close_betting().unwrap();
    table.roll(&mut directory, roll(5, 4)).unwrap();
    assert_eq!(directory.balance(ann), Some(100));
    table.close_betting().unwrap();
    let departure = table.remove_player(&mut directory, ann).unwrap();
    assert!(departure.paid);
    assert_eq!(directory.balance(ann), Some(110));
    assert!(!table.has_players());
}

#[test]
fn a_departure_that_cannot_be_paid_still_leaves_and_halts_the_table() {
    let mut directory = Directory::new();
    let ann = directory.open("Ann".to_string(), 100).unwrap();
    let bob = directory.open("Bob".to_string(), 100).unwrap();
    let mut table = CraplessCraps::new(1, vec![ann, bob]);
    table.place_wager(&mut directory, ann, 10, Position::FIELD).unwrap();
    directory.close(ann).unwrap();
    let departure = table.remove_player(&mut directory, ann).unwrap();
    assert!(!departure.paid);
    assert_eq!(departure.settled.len(), 1);
    assert!(table.is_halted());
    assert!(!table.has_player(ann));
    assert!(table.game_state().get_bet(Position::FIELD).is_none());
    assert_eq!(directory.balance(bob), Some(100));
}

#[test]
fn a_new_table_seats_nobody_twice() {
    let table = CraplessCraps::new(3, vec![7, 8, 7, 9, 8]);
    assert_eq!(table.player_count(), 3);
    assert!(table.has_player(7) && table.has_player(8) && table.has_player(9));
    let empty = CraplessCraps::new(4, Vec::new());
    assert!(!empty.has_players());
    assert_eq!(empty.player_count(), 0);
}

#[test]
fn add_player_seats_nobody_twice() {
    let (_, ann, mut table) = one_player();
    assert!(!table.add_player(ann));
    assert!(table.add_player(ann + 1));
    assert!(!table.add_player(ann + 1));
    assert_eq!(table.player_count(), 2);
}

#[test]
fn step_follows_the_cycle() {
    let (mut directory, ann, mut table) = one_player();
    table.place_wager(&mut directory, ann, 10, Position::PassLine).unwrap();
    assert!(matches!(
        table.step(&mut directory, TableEvent::Rolled(roll(3, 4))),
        Err(BetError::WrongMode)
    ));
    assert!(table.step(&mut directory, TableEvent::BettingClosed).unwrap().is_none());
    assert_eq!(table.game_state().state(), GameState::Rolling);
    assert!(matches!(
        table.step(&mut directory, TableEvent::BettingClosed),
        Err(BetError::WrongMode)
    ));
    let report = table
        .step(&mut directory, TableEvent::Rolled(roll(6, 3)))
        .unwrap()
        .unwrap();
    assert_eq!(report.total, 9);
    assert_eq!(report.phase, TablePhase::PointOn(9));
    assert_eq!(table.game_state().state(), GameState::Betting);
    assert_eq!(table.game_state().point(), Some(9));
}

#[test]
fn a_table_pays_as_its_pay_table_says() {
    let mut directory = Directory::new();
    let ann = directory.open("Ann".to_string(), 100).unwrap();
    let mut odds = PayTable::uniform(Ratio::even());
    assert!(odds.set(Position::PassLine, 7, Ratio::new(3, 2).unwrap()));
    let mut table = CraplessCraps::with_rules(9, vec![ann], LeavePolicy::Refund, odds);
    table.place_wager(&mut directory, ann, 10, Position::PassLine).unwrap();
    table.place_wager(&mut directory, ann, 10, Position::FIELD).unwrap();
    table.close_betting().unwrap();
    table.roll(&mut directory, roll(3, 4)).unwrap();
    assert_eq!(directory.balance(ann), Some(80 + 10 + 15));
}

#[test]
fn money_is_neither_made_nor_lost_by_placing_and_withdrawing() {
    let mut directory = Directory::new();
    let ann = directory.open("Ann".to_string(), 100).unwrap();
    let mut table = CraplessCraps::new(1, vec![ann]);
    for amount in [1u32, 2, 3, 4] {
        table.place_wager(&mut directory, ann, amount, Position::FIELD).unwrap();
        table.place_wager(&mut directory, ann, amount, Position::HardFour).unwrap();
    }
    assert_eq!(directory.balance(ann), Some(80));
    table.withdraw_wager(&mut directory, ann, Position::FIELD).unwrap();
    assert_eq!(directory.balance(ann), Some(90));
    table.withdraw_wager(&mut directory, ann, Position::HardFour).unwrap();
    assert_eq!(directory.balance(ann), Some(100));
}

#[test]
fn wagers_are_numbered_in_the_order_placed() {
    let mut directory = Directory::new();
    let ann = directory.open("Ann".to_string(), 100).unwrap();
    let bob = directory.open("Bob".to_string(), 100).unwrap();
    let mut table = CraplessCraps::new(1, vec![ann, bob]);
    let first = table.place_wager(&mut directory, ann, 1, Position::FIELD).unwrap();
    let second = table.place_wager(&mut directory, bob, 1, Position::PassLine).unwrap();
    assert!(table.place_wager(&mut directory, bob, 0, Position::PassLine).is_err());
    let third = table.place_wager(&mut directory, ann, 1, Position::FIELD).unwrap();
    assert_eq!((first.id(), second.id(), third.id()), (1, 2, 3));
    table.close_betting().unwrap();
    let report = table.roll(&mut directory, roll(2, 2)).unwrap();
    let numbers: Vec<u64> = report.settled.iter().map(|r| r.wager).collect();
    assert_eq!(numbers, vec![1, 3, 2]);
    let carried = table.game_state().get_bet(Position::PassLine).unwrap();
    assert_eq!(carried[0].id(), 2);
    let fourth = table.place_wager(&mut directory, ann, 1, Position::FIELD).unwrap();
    assert_eq!(fourth.id(), 4);
    let withdrawn = table.withdraw_wager(&mut directory, ann, Position::FIELD).unwrap();
    assert_eq!(withdrawn[0].wager, 4);
}

#[test]
fn betting_can_close_once_everybody_is_ready() {
    let mut directory = Directory::new();
    let ann = directory.open("Ann".to_string(), 100).unwrap();
    let bob = directory.open("Bob".to_string(), 100).unwrap();
    let mut table = CraplessCraps::new(1, vec![ann, bob]);
    assert!(!table.all_ready());
    assert_eq!(table.mark_ready(ann), Ok(false));
    assert!(table.is_ready(ann));
    assert!(!table.is_ready(bob));
    assert_eq!(table.mark_ready(ann), Ok(false));
    assert_eq!(table.mark_ready(ann + 10), Err(BetError::NotSeated));
    assert_eq!(table.mark_ready(bob), Ok(true));
    assert!(table.all_ready());
    table.close_betting().unwrap();
    assert!(!table.is_ready(ann));
    assert!(!table.all_ready());
    assert_eq!(table.mark_ready(ann), Err(BetError::WrongMode));
    table.roll(&mut directory, roll(1, 1)).unwrap();
    assert_eq!(table.mark_ready(bob), Ok(false));
    table.remove_player(&mut directory, ann).unwrap();
    assert!(table.all_ready());
    assert!(table.add_player(ann));
    assert!(!table.all_ready());
    table.remove_player(&mut directory, bob).unwrap();
    assert!(!table.is_ready(bob));
    assert_eq!(table.mark_ready(ann), Ok(true));
}

#[test]
fn state_of_play_can_be_set_by_hand() {
    let mut state = table_games::crapless::CraplessCrapsGameState::new();
    assert!(state.is_come_out_roll());
    assert_eq!(state.point(), None);
    state.set_point(8);
    assert_eq!(state.point(), Some(8));
    assert!(!state.is_come_out_roll());
    state.clear_point();
    assert_eq!(state.point(), None);
    assert!(state.is_come_out_roll());
    assert_eq!(state.state(), GameState::Betting);
}
