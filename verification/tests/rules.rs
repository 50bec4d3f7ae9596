use table_games::bet::Outcome;
use table_games::odds::{PayTable, Ratio};
use table_games::position::{Position, WagerClass};
use table_games::rules::{advance, decide, is_open, resolve, Roll, TablePhase};

fn roll(first: u8, second: u8) -> Roll {
    Roll::new(first, second).unwrap()
}

fn all_positions() -> Vec<Position> {
    let mut positions = Vec::new();
    let mut index = 0;
    while let Some(position) = Position::from_index(index) {
        positions.push(position);
        index += 1;
    }
    positions
}

fn all_rolls() -> Vec<Roll> {
    let mut rolls = Vec::new();
    for first in 1..=6 {
        for second in 1..=6 {
            rolls.push(roll(first, second));
        }
    }
    rolls
}

fn all_phases() -> Vec<TablePhase> {
    let mut phases = vec![TablePhase::ComeOut];
    for point in [2u8, 3, 4, 5, 6, 8, 9, 10, 11, 12] {
        phases.push(TablePhase::PointOn(point));
    }
    phases
}

#[test]
fn roll_needs_real_faces() {
    assert!(Roll::new(0, 3).is_none());
    assert!(Roll::new(3, 0).is_none());
    assert!(Roll::new(7, 1).is_none());
    assert!(Roll::new(1, 7).is_none());
    let thrown = roll(2, 5);
    assert_eq!((thrown.first(), thrown.second(), thrown.total()), (2, 5, 7));
    assert!(!thrown.is_pair());
    assert!(roll(6, 6).is_pair());
    assert_eq!(roll(6, 6).total(), 12);
    assert_eq!(roll(1, 1).total(), 2);
}

#[test]
fn layout_has_twenty_two_areas_in_five_families() {
    let positions = all_positions();
    assert_eq!(positions.len(), 22);
    assert!(Position::from_index(22).is_none());
    let count = |class: WagerClass| positions.iter().filter(|p| p.class() == class).count();
    assert_eq!(count(WagerClass::Line), 1);
    assert_eq!(count(WagerClass::Field), 1);
    assert_eq!(count(WagerClass::OneRoll), 5);
    assert_eq!(count(WagerClass::Hardway), 4);
    assert_eq!(count(WagerClass::Come), 11);
    assert_eq!(Position::Two.index(), 0);
    assert_eq!(Position::OneRollTwelve.index(), 21);
    assert_eq!(Position::HardEight.target(), Some(8));
    assert_eq!(Position::OneRollSeven.target(), Some(7));
    assert_eq!(Position::Eleven.target(), Some(11));
    assert_eq!(Position::PassLine.target(), None);
    assert_eq!(Position::COME.target(), None);
    assert_eq!(Position::FIELD.target(), None);
}

#[test]
fn come_out_seven_wins_the_line_and_leaves_no_point() {
    assert_eq!(decide(Position::PassLine, TablePhase::ComeOut, roll(3, 4)), Outcome::Won);
    assert_eq!(advance(TablePhase::ComeOut, roll(3, 4)), TablePhase::ComeOut);
}

#[test]
fn come_out_never_loses_the_line() {
    for thrown in all_rolls() {
        let outcome = decide(Position::PassLine, TablePhase::ComeOut, thrown);
        if thrown.total() == 7 {
            assert_eq!(outcome, Outcome::Won);
        } else {
            assert_eq!(outcome, Outcome::Carried);
            assert_eq!(
                advance(TablePhase::ComeOut, thrown),
                TablePhase::PointOn(thrown.total())
            );
        }
    }
}

#[test]
fn craps_numbers_become_the_point() {
    assert_eq!(advance(TablePhase::ComeOut, roll(1, 1)), TablePhase::PointOn(2));
    assert_eq!(advance(TablePhase::ComeOut, roll(1, 2)), TablePhase::PointOn(3));
    assert_eq!(advance(TablePhase::ComeOut, roll(5, 6)), TablePhase::PointOn(11));
    assert_eq!(advance(TablePhase::ComeOut, roll(6, 6)), TablePhase::PointOn(12));
}

#[test]
fn point_made_wins_the_line_and_clears_the_point() {
    let phase = TablePhase::PointOn(5);
    assert_eq!(decide(Position::PassLine, phase, roll(2, 3)), Outcome::Won);
    assert_eq!(decide(Position::COME, phase, roll(2, 3)), Outcome::Won);
    assert_eq!(advance(phase, roll(2, 3)), TablePhase::ComeOut);
    assert_eq!(advance(phase, roll(2, 3)).point(), None);
}

#[test]
fn seven_out_loses_line_come_and_numbers() {
    for point in [2u8, 3, 4, 5, 6, 8, 9, 10, 11, 12] {
        let phase = TablePhase::PointOn(point);
        for thrown in [roll(1, 6), roll(2, 5), roll(3, 4), roll(4, 3)] {
            for position in all_positions() {
                let outcome = decide(position, phase, thrown);
                match position.class() {
                    WagerClass::Line | WagerClass::Come | WagerClass::Hardway => {
                        assert_eq!(outcome, Outcome::Lost)
                    }
                    WagerClass::Field => assert_eq!(outcome, Outcome::Lost),
                    WagerClass::OneRoll => {
                        if position == Position::OneRollSeven {
                            assert_eq!(outcome, Outcome::Won)
                        } else {
                            assert_eq!(outcome, Outcome::Lost)
                        }
                    }
                }
            }
            assert_eq!(advance(phase, thrown), TablePhase::ComeOut);
        }
    }
}

#[test]
fn other_totals_carry_the_line_and_keep_the_point() {
    let phase = TablePhase::PointOn(5);
    assert_eq!(decide(Position::PassLine, phase, roll(4, 4)), Outcome::Carried);
    assert_eq!(decide(Position::COME, phase, roll(4, 4)), Outcome::Carried);
    assert_eq!(decide(Position::Nine, phase, roll(4, 4)), Outcome::Carried);
    assert_eq!(decide(Position::Eight, phase, roll(4, 4)), Outcome::Won);
    assert_eq!(advance(phase, roll(4, 4)), phase);
    assert_eq!(advance(phase, roll(4, 4)).point(), Some(5));
}

#[test]
fn field_and_one_roll_wagers_never_carry() {
    for phase in all_phases() {
        for thrown in all_rolls() {
            for position in all_positions() {
                let outcome = decide(position, phase, thrown);
                assert_ne!(outcome, Outcome::Pushed);
                match position.class() {
                    WagerClass::Field | WagerClass::OneRoll => {
                        assert!(outcome == Outcome::Won || outcome == Outcome::Lost)
                    }
                    _ => {}
                }
            }
        }
    }
}

#[test]
fn field_wins_on_its_totals() {
    for thrown in all_rolls() {
        let wins = matches!(thrown.total(), 2 | 3 | 4 | 9 | 10 | 11 | 12);
        let outcome = decide(Position::FIELD, TablePhase::ComeOut, thrown);
        assert_eq!(outcome == Outcome::Won, wins);
        assert_eq!(outcome == Outcome::Lost, !wins);
    }
}

#[test]
fn one_roll_wins_on_its_total_only() {
    let phase = TablePhase::PointOn(9);
    assert_eq!(decide(Position::OneRollTwo, phase, roll(1, 1)), Outcome::Won);
    assert_eq!(decide(Position::OneRollTwo, phase, roll(1, 2)), Outcome::Lost);
    assert_eq!(decide(Position::OneRollThree, phase, roll(2, 1)), Outcome::Won);
    assert_eq!(decide(Position::OneRollEleven, phase, roll(6, 5)), Outcome::Won);
    assert_eq!(decide(Position::OneRollTwelve, phase, roll(6, 6)), Outcome::Won);
    assert_eq!(decide(Position::OneRollTwelve, phase, roll(6, 5)), Outcome::Lost);
    assert_eq!(decide(Position::OneRollSeven, phase, roll(6, 1)), Outcome::Won);
    assert_eq!(decide(Position::OneRollSeven, phase, roll(6, 2)), Outcome::Lost);
}

#[test]
fn hardway_wins_on_the_pair_and_loses_on_seven_or_the_easy_way() {
    for phase in all_phases() {
        assert_eq!(decide(Position::HardFour, phase, roll(2, 2)), Outcome::Won);
        assert_eq!(decide(Position::HardFour, phase, roll(1, 3)), Outcome::Lost);
        assert_eq!(decide(Position::HardFour, phase, roll(3, 1)), Outcome::Lost);
        assert_eq!(decide(Position::HardFour, phase, roll(3, 4)), Outcome::Lost);
        assert_eq!(decide(Position::HardFour, phase, roll(3, 3)), Outcome::Carried);
        assert_eq!(decide(Position::HardSix, phase, roll(3, 3)), Outcome::Won);
        assert_eq!(decide(Position::HardSix, phase, roll(2, 4)), Outcome::Lost);
        assert_eq!(decide(Position::HardEight, phase, roll(4, 4)), Outcome::Won);
        assert_eq!(decide(Position::HardEight, phase, roll(5, 3)), Outcome::Lost);
        assert_eq!(decide(Position::HardTen, phase, roll(5, 5)), Outcome::Won);
        assert_eq!(decide(Position::HardTen, phase, roll(6, 4)), Outcome::Lost);
        assert_eq!(decide(Position::HardTen, phase, roll(6, 5)), Outcome::Carried);
    }
}

#[test]
fn numbers_win_on_their_total_in_either_phase() {
    for phase in all_phases() {
        assert_eq!(decide(Position::Six, phase, roll(1, 5)), Outcome::Won);
        assert_eq!(decide(Position::Six, phase, roll(3, 4)), Outcome::Lost);
        assert_eq!(decide(Position::Two, phase, roll(1, 1)), Outcome::Won);
        assert_eq!(decide(Position::Twelve, phase, roll(6, 6)), Outcome::Won);
    }
    assert_eq!(decide(Position::Six, TablePhase::ComeOut, roll(1, 4)), Outcome::Carried);
}

#[test]
fn resolve_agrees_with_decide_everywhere() {
    for phase in all_phases() {
        for thrown in all_rolls() {
            let resolution = resolve(phase, thrown);
            assert_eq!(resolution.next_phase(), advance(phase, thrown));
            for position in all_positions() {
                assert_eq!(resolution.outcome(position), decide(position, phase, thrown));
            }
        }
    }
}

#[test]
fn phases_keep_a_point_that_can_be_one() {
    for phase in all_phases() {
        for thrown in all_rolls() {
            match advance(phase, thrown) {
                TablePhase::ComeOut => {}
                TablePhase::PointOn(point) => {
                    assert!((2..=12).contains(&point) && point != 7)
                }
            }
        }
    }
    assert!(TablePhase::ComeOut.is_come_out());
    assert!(!TablePhase::PointOn(4).is_come_out());
}

#[test]
fn areas_open_by_phase() {
    assert!(is_open(Position::PassLine, TablePhase::ComeOut));
    assert!(!is_open(Position::PassLine, TablePhase::PointOn(4)));
    assert!(!is_open(Position::COME, TablePhase::ComeOut));
    assert!(is_open(Position::COME, TablePhase::PointOn(4)));
    assert!(!is_open(Position::Six, TablePhase::ComeOut));
    assert!(is_open(Position::Six, TablePhase::PointOn(4)));
    for phase in [TablePhase::ComeOut, TablePhase::PointOn(10)] {
        assert!(is_open(Position::FIELD, phase));
        assert!(is_open(Position::HardSix, phase));
        assert!(is_open(Position::OneRollSeven, phase));
    }
}

#[test]
fn standard_pay_table() {
    let table = PayTable::standard();
    let odds = |position: Position, thrown: Roll| {
        let ratio = table.ratio(position, thrown);
        (ratio.num(), ratio.den())
    };
    assert_eq!(odds(Position::PassLine, roll(3, 4)), (1, 1));
    assert_eq!(odds(Position::COME, roll(2, 3)), (1, 1));
    assert_eq!(odds(Position::Two, roll(1, 1)), (11, 2));
    assert_eq!(odds(Position::Twelve, roll(6, 6)), (11, 2));
    assert_eq!(odds(Position::Three, roll(1, 2)), (11, 4));
    assert_eq!(odds(Position::Eleven, roll(5, 6)), (11, 4));
    assert_eq!(odds(Position::Four, roll(1, 3)), (9, 5));
    assert_eq!(odds(Position::Ten, roll(4, 6)), (9, 5));
    assert_eq!(odds(Position::Five, roll(1, 4)), (7, 5));
    assert_eq!(odds(Position::Nine, roll(4, 5)), (7, 5));
    assert_eq!(odds(Position::Six, roll(1, 5)), (7, 6));
    assert_eq!(odds(Position::Eight, roll(4, 4)), (7, 6));
    assert_eq!(odds(Position::FIELD, roll(1, 1)), (2, 1));
    assert_eq!(odds(Position::FIELD, roll(6, 6)), (2, 1));
    assert_eq!(odds(Position::FIELD, roll(1, 2)), (1, 1));
    assert_eq!(odds(Position::FIELD, roll(5, 6)), (1, 1));
    assert_eq!(odds(Position::HardFour, roll(2, 2)), (7, 1));
    assert_eq!(odds(Position::HardTen, roll(5, 5)), (7, 1));
    assert_eq!(odds(Position::HardSix, roll(3, 3)), (9, 1));
    assert_eq!(odds(Position::HardEight, roll(4, 4)), (9, 1));
    assert_eq!(odds(Position::OneRollSeven, roll(3, 4)), (4, 1));
    assert_eq!(odds(Position::OneRollThree, roll(1, 2)), (15, 1));
    assert_eq!(odds(Position::OneRollEleven, roll(5, 6)), (15, 1));
    assert_eq!(odds(Position::OneRollTwo, roll(1, 1)), (30, 1));
    assert_eq!(odds(Position::OneRollTwelve, roll(6, 6)), (30, 1));
}

#[test]
fn pay_table_can_be_changed_entry_by_entry() {
    let mut table = PayTable::uniform(Ratio::even());
    assert!(table.set(Position::FIELD, 12, Ratio::to_one(3)));
    assert!(!table.set(Position::FIELD, 13, Ratio::to_one(9)));
    assert!(!table.set(Position::FIELD, 1, Ratio::to_one(9)));
    assert!(!table.set(Position::FIELD, 0, Ratio::to_one(9)));
    assert_eq!(table.ratio(Position::FIELD, roll(6, 6)).num(), 3);
    assert_eq!(table.ratio(Position::FIELD, roll(5, 6)).num(), 1);
    assert_eq!(table.ratio(Position::COME, roll(6, 6)).num(), 1);
    assert_eq!(table.ratio(Position::PassLine, roll(6, 6)).num(), 1);
    table.set_all(Position::HardSix, Ratio::new(19, 2).unwrap());
    for thrown in all_rolls() {
        let ratio = table.ratio(Position::HardSix, thrown);
        assert_eq!((ratio.num(), ratio.den()), (19, 2));
        assert_eq!(table.ratio(Position::HardEight, thrown).num(), 1);
    }
}
