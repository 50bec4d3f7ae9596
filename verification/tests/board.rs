use table_games::bet::Bet;
use table_games::board::Board;
use table_games::player::Player;
use table_games::position::Position;

#[test]
fn test_new_board() {
    let board = Board::new();
    assert!(board.is_empty());
}

#[test]
fn test_add_bet() {
    let mut board = Board::new();
    let mut player = Player::new("Player 1".to_string(), 100);
    let bet = Bet::new(10, &mut player).unwrap();
    board.add_bet(Position::Two, bet.clone());
    assert_eq!(board.len(), 1);
    assert_eq!(board.get_bet(Position::Two).unwrap(), &vec![bet]);
}

#[test]
fn test_two_bets_same_position() {
    let mut board = Board::new();
    let mut player = Player::new("Player 1".to_string(), 100);
    let bet = Bet::new(10, &mut player).unwrap();
    let bet2 = Bet::new(10, &mut player).unwrap();
    board.add_bet(Position::Two, bet.clone());
    board.add_bet(Position::Two, bet2.clone());
    // 1 position has bets on it
    assert_eq!(board.len(), 1);
    assert_eq!(board.get_bet(Position::Two).unwrap(), &vec![bet, bet2]);
}

#[test]
fn test_clear_bet() {
    let mut board = Board::new();
    let mut player = Player::new("Player 1".to_string(), 100);
    let bet = Bet::new(10, &mut player).unwrap();
    board.add_bet(Position::Two, bet.clone());
    assert!(!board.is_empty());
    board.clear_bet(Position::Two);
    assert!(board.is_empty());
}

#[test]
fn test_clear_all_bets() {
    let mut board = Board::new();
    let mut player = Player::new("Player 1".to_string(), 100);
    let bet = Bet::new(10, &mut player).unwrap();
    let bet2 = Bet::new(10, &mut player).unwrap();
    board.add_bet(Position::Two, bet.clone());
    board.add_bet(Position::Ten, bet2.clone());
    assert_eq!(board.len(), 2);
    board.clear_all_bets();
    assert!(board.is_empty());
}

#[test]
fn get_bet_on_an_empty_area_is_nothing() {
    let mut board = Board::new();
    assert!(board.get_bet(Position::FIELD).is_none());
    let mut player = Player::new("Player 1".to_string(), 100);
    let bet = Bet::new(10, &mut player).unwrap();
    board.add_bet(Position::FIELD, bet);
    assert!(board.get_bet(Position::COME).is_none());
    board.clear_bet(Position::FIELD);
    assert!(board.get_bet(Position::FIELD).is_none());
    assert_eq!(board.len(), 0);
}

#[test]
fn clear_bet_leaves_the_other_areas() {
    let mut board = Board::new();
    let mut player = Player::new("Player 1".to_string(), 100);
    let first = Bet::new(10, &mut player).unwrap();
    let second = Bet::new(20, &mut player).unwrap();
    board.add_bet(Position::HardSix, first);
    board.add_bet(Position::OneRollTwelve, second);
    board.clear_bet(Position::HardSix);
    assert_eq!(board.len(), 1);
    assert_eq!(board.get_bet(Position::OneRollTwelve).unwrap(), &vec![second]);
}

#[test]
fn every_area_holds_its_own_wagers() {
    let mut board = Board::new();
    let mut player = Player::new("Player 1".to_string(), 1000);
    let mut index = 0;
    while let Some(position) = Position::from_index(index) {
        assert_eq!(position.index(), index);
        let bet = Bet::new(index as u32 + 1, &mut player).unwrap();
        board.add_bet(position, bet);
        index += 1;
        assert_eq!(board.len(), index);
    }
    assert_eq!(index, 22);
    let mut index = 0;
    while let Some(position) = Position::from_index(index) {
        let bets = board.get_bet(position).unwrap();
        assert_eq!(bets.len(), 1);
        assert_eq!(bets[0].amount(), index as u32 + 1);
        index += 1;
    }
}

#[test]
fn withdraw_takes_the_owners_wagers_and_keeps_the_order_of_the_rest() {
    let mut board = Board::new();
    let mut ann = Player::with_id(1, "Ann".to_string(), 100);
    let mut bob = Player::with_id(2, "Bob".to_string(), 100);
    let a1 = Bet::new(1, &mut ann).unwrap();
    let b1 = Bet::new(2, &mut bob).unwrap();
    let a2 = Bet::new(3, &mut ann).unwrap();
    let b2 = Bet::new(4, &mut bob).unwrap();
    for bet in [a1, b1, a2, b2] {
        board.add_bet(Position::FIELD, bet);
    }
    board.add_bet(Position::Six, a1);
    let taken = board.withdraw(Position::FIELD, 1);
    assert_eq!(taken, vec![a1, a2]);
    assert_eq!(board.get_bet(Position::FIELD).unwrap(), &vec![b1, b2]);
    assert_eq!(board.get_bet(Position::Six).unwrap(), &vec![a1]);
    let none = board.withdraw(Position::FIELD, 1);
    assert!(none.is_empty());
    let rest = board.withdraw(Position::FIELD, 2);
    assert_eq!(rest, vec![b1, b2]);
    assert!(board.get_bet(Position::FIELD).is_none());
}

#[test]
fn replace_swaps_the_wagers_of_one_area() {
    let mut board = Board::new();
    let mut ann = Player::with_id(1, "Ann".to_string(), 100);
    let first = Bet::new(1, &mut ann).unwrap();
    let second = Bet::new(2, &mut ann).unwrap();
    board.add_bet(Position::Four, first);
    let before = board.replace(Position::Four, vec![second, first]);
    assert_eq!(before, vec![first]);
    assert_eq!(board.get_bet(Position::Four).unwrap(), &vec![second, first]);
}
