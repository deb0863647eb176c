use tabletop_logs::dice::RollSingle;
use tabletop_logs::simulation::{roll_single_die, simulate_luck, tally_luck, LuckTally};

#[test]
fn single_die_rules() {
    assert_eq!(roll_single_die(1), Some(1));
    assert_eq!(roll_single_die(0), None);
    assert_eq!(roll_single_die(-4), None);
    assert_eq!(roll_single_die(u32::MAX as i64 + 1), None);
    for _ in 0..100 {
        let x = roll_single_die(6).unwrap();
        assert!((1..=6).contains(&x));
    }
}

#[test]
fn tally_counts_wins_and_ties() {
    let rolls = vec![RollSingle { faces: 6, outcome: 3 }, RollSingle { faces: 20, outcome: 20 }];
    let sims = vec![vec![Some(4), Some(3), Some(1)], vec![Some(20), None, Some(5)]];
    let tally = tally_luck(&rolls, &sims, 3);
    assert_eq!(tally, LuckTally { num_rolled: 6, num_beat: 1, num_tied: 2 });
}

#[test]
fn one_faced_dice_always_tie() {
    let rolls = vec![RollSingle { faces: 1, outcome: 1 }; 4];
    let tally = simulate_luck(&rolls, 25);
    assert_eq!(tally, LuckTally { num_rolled: 100, num_beat: 0, num_tied: 100 });
}

#[test]
fn simulation_totals() {
    let rolls = vec![RollSingle { faces: 20, outcome: 10 }, RollSingle { faces: 0, outcome: 1 }];
    let tally = simulate_luck(&rolls, 50);
    assert_eq!(tally.num_rolled, 100);
    assert!(tally.num_beat + tally.num_tied <= 50);
}
