use table_games::bet::{Bet, BetError, BetStatus, Outcome};
use table_games::odds::Ratio;
use table_games::player::Player;

#[test]
fn bet_test_new_bet() {
    let mut player = Player::new("John".to_string(), 100);
    let bet = Bet::new(50, &mut player).unwrap();
    assert_eq!(bet.amount(), 50);
    assert_eq!(player.get_amount(), 50);
}

#[test]
fn game_test_new_bet() {
    let mut player = Player::new("John".to_string(), 100);
    let bet = Bet::new(50, &mut player).unwrap();
    assert_eq!(bet.amount(), 50);
    assert_eq!(player.get_amount(), 50);
}

#[test]
fn new_bet_is_active_and_owned_by_the_player() {
    let mut player = Player::with_id(7, "Ann".to_string(), 30);
    let bet = Bet::new(30, &mut player).unwrap();
    assert_eq!(bet.owner(), 7);
    assert_eq!(bet.status(), BetStatus::Active);
    assert!(bet.is_live());
    assert_eq!(player.get_amount(), 0);
}

#[test]
fn a_bet_can_be_numbered() {
    let mut player = Player::with_id(7, "Ann".to_string(), 30);
    let bet = Bet::new(30, &mut player).unwrap();
    assert_eq!(bet.id(), 0);
    let numbered = bet.numbered(12);
    assert_eq!(numbered.id(), 12);
    assert_eq!(
        (numbered.amount(), numbered.owner(), numbered.status()),
        (bet.amount(), bet.owner(), bet.status())
    );
    let settled = numbered.settle(Outcome::Carried, Ratio::even()).unwrap();
    assert_eq!(settled.bet.id(), 12);
}

#[test]
fn new_bet_without_funds_is_refused_and_takes_nothing() {
    let mut player = Player::new("John".to_string(), 100);
    match Bet::new(101, &mut player) {
        Err(BetError::NotEnoughMoney(name)) => assert_eq!(name, "John"),
        other => panic!("unexpected: {:?}", other),
    }
    assert_eq!(player.get_amount(), 100);
}

#[test]
fn new_bet_larger_than_any_balance_is_refused() {
    let mut player = Player::new("John".to_string(), 100);
    assert!(matches!(
        Bet::new(u32::MAX, &mut player),
        Err(BetError::NotEnoughMoney(_))
    ));
    assert!(matches!(
        Bet::new(3_000_000_000, &mut player),
        Err(BetError::NotEnoughMoney(_))
    ));
    assert_eq!(player.get_amount(), 100);
}

#[test]
fn new_bet_of_nothing_is_refused() {
    let mut player = Player::new("John".to_string(), 100);
    assert!(matches!(Bet::new(0, &mut player), Err(BetError::InvalidAmount)));
    assert_eq!(player.get_amount(), 100);
}

#[test]
fn settle_won_returns_stake_and_winnings() {
    let mut player = Player::new("John".to_string(), 100);
    let bet = Bet::new(10, &mut player).unwrap();
    let settled = bet.settle(Outcome::Won, Ratio::new(7, 6).unwrap()).unwrap();
    assert_eq!(settled.credit, 10 + 11);
    assert_eq!(settled.outcome, Outcome::Won);
    assert_eq!(settled.bet.status(), BetStatus::Won);
    assert_eq!(settled.bet.amount(), 10);
    assert!(!settled.bet.is_live());
}

#[test]
fn settle_pushed_returns_the_stake_only() {
    let mut player = Player::new("John".to_string(), 100);
    let bet = Bet::new(10, &mut player).unwrap();
    let settled = bet.settle(Outcome::Pushed, Ratio::to_one(30)).unwrap();
    assert_eq!(settled.credit, 10);
    assert_eq!(settled.bet.status(), BetStatus::Pushed);
}

#[test]
fn settle_lost_returns_nothing() {
    let mut player = Player::new("John".to_string(), 100);
    let bet = Bet::new(10, &mut player).unwrap();
    let settled = bet.settle(Outcome::Lost, Ratio::to_one(30)).unwrap();
    assert_eq!(settled.credit, 0);
    assert_eq!(settled.bet.status(), BetStatus::Lost);
}

#[test]
fn settle_carried_keeps_the_wager_in_play() {
    let mut player = Player::new("John".to_string(), 100);
    let bet = Bet::new(10, &mut player).unwrap();
    let carried = bet.settle(Outcome::Carried, Ratio::even()).unwrap();
    assert_eq!(carried.credit, 0);
    assert_eq!(carried.bet.status(), BetStatus::Carried);
    assert!(carried.bet.is_live());
    let won = carried.bet.settle(Outcome::Won, Ratio::even()).unwrap();
    assert_eq!(won.credit, 20);
}

#[test]
fn carried_keeps_everything_but_the_status() {
    let mut player = Player::with_id(4, "John".to_string(), 100);
    let bet = Bet::new(10, &mut player).unwrap().numbered(6);
    let carried = bet.carried();
    assert_eq!(
        (carried.id(), carried.amount(), carried.owner(), carried.status()),
        (6, 10, 4, BetStatus::Carried)
    );
    assert_eq!(carried.carried(), carried);
    let lost = bet.settle(Outcome::Lost, Ratio::even()).unwrap().bet;
    assert_eq!(lost.carried(), lost);
}

#[test]
fn settle_twice_is_refused() {
    let mut player = Player::new("John".to_string(), 100);
    let bet = Bet::new(10, &mut player).unwrap();
    for first in [Outcome::Won, Outcome::Lost, Outcome::Pushed] {
        let settled = bet.settle(first, Ratio::even()).unwrap();
        for second in [Outcome::Won, Outcome::Lost, Outcome::Pushed, Outcome::Carried] {
            assert!(matches!(
                settled.bet.settle(second, Ratio::even()),
                Err(BetError::SettlementInvariantViolation)
            ));
        }
    }
}

#[test]
fn stake_is_accounted_for_once_over_a_lifetime() {
    let mut player = Player::new("John".to_string(), 100);
    let bet = Bet::new(40, &mut player).unwrap();
    let lifetime = [
        Outcome::Carried,
        Outcome::Carried,
        Outcome::Lost,
        Outcome::Won,
        Outcome::Pushed,
    ];
    let mut current = bet;
    let mut credited = 0u64;
    let mut forfeited = 0u64;
    for outcome in lifetime {
        if let Ok(settled) = current.settle(outcome, Ratio::to_one(0)) {
            credited += settled.credit;
            if outcome == Outcome::Lost {
                forfeited += u64::from(settled.bet.amount());
            }
            current = settled.bet;
        }
    }
    assert_eq!(credited + forfeited, 40);
}

#[test]
fn largest_stake_at_largest_odds_fits() {
    let mut player = Player::new("John".to_string(), i32::MAX);
    let bet = Bet::new(i32::MAX as u32, &mut player).unwrap();
    let settled = bet.settle(Outcome::Won, Ratio::to_one(u32::MAX)).unwrap();
    assert_eq!(
        settled.credit,
        (i32::MAX as u64) + (i32::MAX as u64) * (u32::MAX as u64)
    );
}

#[test]
fn every_outcome_has_its_status() {
    assert_eq!(Outcome::Won.status(), BetStatus::Won);
    assert_eq!(Outcome::Lost.status(), BetStatus::Lost);
    assert_eq!(Outcome::Pushed.status(), BetStatus::Pushed);
    assert_eq!(Outcome::Carried.status(), BetStatus::Carried);
}

#[test]
fn error_messages() {
    assert_eq!(
        BetError::NotEnoughMoney("John".to_string()).message(),
        "Not enough money to place bet: John"
    );
    let plain = [
        BetError::InvalidAmount,
        BetError::InvalidPosition,
        BetError::WrongMode,
        BetError::NotSeated,
        BetError::UnknownAccount,
        BetError::UnknownTable,
        BetError::TableFull,
        BetError::SettlementInvariantViolation,
    ];
    let mut seen: Vec<String> = Vec::new();
    for error in plain {
        let message = error.message();
        assert!(!message.is_empty());
        assert!(!seen.contains(&message));
        seen.push(message);
    }
}

#[test]
fn ratio_rejects_zero_denominator() {
    assert!(Ratio::new(3, 0).is_none());
    let ratio = Ratio::new(3, 2).unwrap();
    assert_eq!((ratio.num(), ratio.den()), (3, 2));
    assert_eq!(ratio.winnings(5), 7);
    assert_eq!(Ratio::even().winnings(5), 5);
    assert_eq!(Ratio::to_one(30).winnings(5), 150);
    assert_eq!(Ratio::new(11, 4).unwrap().winnings(10), 27);
}
