use tabletop_logs::dice::{decompose, num_with_thousands_commas, roll_dice, roll_dice_total, RollSingle};
use tabletop_logs::expression::{get_precedence, parse_dicemath, DiceToken};
use tabletop_logs::post::get_roll_from_expression_and_outcomes;

fn postfix(expr: &str) -> Option<Vec<String>> {
    parse_dicemath(expr).map(|tokens| {
        tokens
            .into_iter()
            .map(|t| match t {
                DiceToken::Number(n) => n,
                DiceToken::Operator(c) => c.to_string(),
            })
            .collect()
    })
}

#[test]
fn get_rolls_from_expr_and_results() {
    let roll =
        get_roll_from_expression_and_outcomes("2d20+(15+0) + 3d6", vec![10, 15, 3, 4, 5], "52")
            .unwrap();

    assert_eq!(roll.single_rolls.len(), 5);
    assert_eq!(roll.single_rolls[0].faces, 20);
    assert_eq!(roll.single_rolls[0].outcome, 10);
    assert_eq!(roll.single_rolls[1].outcome, 15);
    assert_eq!(roll.single_rolls[2].outcome, 3);
    assert_eq!(roll.single_rolls[3].outcome, 4);
    assert_eq!(roll.single_rolls[4].outcome, 5);
    assert_eq!(roll.formula, "2d20+(15+0) + 3d6");
    assert_eq!(roll.outcome, "52");

    let roll = get_roll_from_expression_and_outcomes("4d6k3", vec![3, 1, 1, 3], "7").unwrap();
    assert_eq!(roll.single_rolls.len(), 4);
    assert_eq!(roll.single_rolls[0].faces, 6);
    assert_eq!(roll.single_rolls[0].outcome, 3);
    assert_eq!(roll.single_rolls[1].outcome, 1);
    assert_eq!(roll.single_rolls[2].outcome, 1);
    assert_eq!(roll.single_rolls[3].outcome, 3);
    assert_eq!(roll.formula, "4d6k3");
    assert_eq!(roll.outcome, "7");
}

#[test]
fn decompose_round_trip_matches_each_die() {
    let dice = decompose("2d20+(15+0) + 3d6", &vec![10, 15, 3, 4, 5]).unwrap();
    let expected = vec![
        RollSingle { faces: 20, outcome: 10 },
        RollSingle { faces: 20, outcome: 15 },
        RollSingle { faces: 6, outcome: 3 },
        RollSingle { faces: 6, outcome: 4 },
        RollSingle { faces: 6, outcome: 5 },
    ];
    assert_eq!(dice, expected);
}

#[test]
fn decompose_ignores_keep_modifier() {
    let dice = decompose("4d6k3", &vec![3, 1, 1, 3]).unwrap();
    let expected = vec![
        RollSingle { faces: 6, outcome: 3 },
        RollSingle { faces: 6, outcome: 1 },
        RollSingle { faces: 6, outcome: 1 },
        RollSingle { faces: 6, outcome: 3 },
    ];
    assert_eq!(dice, expected);
}

#[test]
fn decompose_implied_single_die() {
    let dice = decompose("d20+5", &vec![17]).unwrap();
    assert_eq!(dice, vec![RollSingle { faces: 20, outcome: 17 }]);
}

#[test]
fn decompose_too_few_outcomes() {
    assert!(decompose("3d6", &vec![1, 2]).is_none());
}

#[test]
fn decompose_leftover_outcomes() {
    assert!(decompose("1d6", &vec![1, 2]).is_none());
}

#[test]
fn decompose_incomplete_term_at_end() {
    assert!(decompose("2d", &vec![1, 2]).is_none());
}

#[test]
fn decompose_no_dice() {
    assert_eq!(decompose("15+3", &vec![]).unwrap(), vec![]);
}

#[test]
fn precedence_of_operators() {
    assert_eq!(get_precedence('+'), Some(1));
    assert_eq!(get_precedence('-'), Some(1));
    assert_eq!(get_precedence('*'), Some(2));
    assert_eq!(get_precedence('/'), Some(2));
    assert_eq!(get_precedence('^'), Some(3));
    assert_eq!(get_precedence('d'), Some(4));
    assert_eq!(get_precedence('x'), None);
}

#[test]
fn postfix_of_flat_expressions() {
    assert!(postfix("1 ++ 1").is_none());
    assert_eq!(postfix("1 + 1").unwrap(), vec!["0", "1", "+", "1", "+"]);
    assert_eq!(postfix("1 * 2 + 2").unwrap(), vec!["0", "1", "2", "*", "+", "2", "+"]);
    assert_eq!(
        postfix(" 1 + as2 * 2 vaagmt- 3 maDSGbW$$$^ 2DV vv Wwq    ").unwrap(),
        postfix("1 + 2 * 2 - 3 ^ 2").unwrap()
    );
}

#[test]
fn postfix_of_nested_expressions() {
    assert_eq!(postfix("2(3+4)").unwrap(), vec!["0", "2", "0", "3", "+", "4", "+", "*", "+"]);
    assert_eq!(postfix("(1").unwrap(), vec!["0", "0", "1", "+", "+"]);
    assert!(postfix("(1)2").is_none());
    assert!(postfix("1.2.3 + 1").is_none());
    assert!(postfix("").is_none());
    assert_eq!(postfix("2d6").unwrap(), vec!["0", "2", "6", "d", "+"]);
}

#[test]
fn postfix_of_rising_precedence_is_standard() {
    assert_eq!(
        postfix("1+2*3^2").unwrap(),
        vec!["0", "1", "+", "2", "3", "2", "^", "*", "+"]
    );
    assert_eq!(postfix("8/4/2").unwrap(), vec!["0", "8", "4", "/", "2", "/", "+"]);
}

#[test]
fn postfix_when_a_looser_operator_follows() {
    assert_eq!(
        postfix("2*3^2+1").unwrap(),
        vec!["0", "2", "3", "2", "^", "*", "+", "1", "+"]
    );
    assert_eq!(
        postfix("1 - 2 * 3 - 4").unwrap(),
        vec!["0", "1", "+", "2", "3", "*", "-", "4", "-"]
    );
    assert_eq!(
        postfix("(1 + 2) * 2 - 3 ^ 2").unwrap(),
        vec!["0", "0", "1", "+", "2", "+", "2", "*", "+", "3", "2", "^", "-"]
    );
    assert_eq!(postfix("2*(3+1)-1").unwrap(), vec!["0", "2", "0", "3", "+", "1", "+", "*", "+", "1", "-"]);
}

#[test]
fn thousands_commas() {
    assert_eq!(num_with_thousands_commas(0), "0");
    assert_eq!(num_with_thousands_commas(999), "999");
    assert_eq!(num_with_thousands_commas(1000), "1,000");
    assert_eq!(num_with_thousands_commas(1234567), "1,234,567");
    assert_eq!(num_with_thousands_commas(u64::MAX), "18,446,744,073,709,551,615");
}

#[test]
fn dice_stay_in_range() {
    for _ in 0..200 {
        let total = roll_dice_total(3, 6);
        assert!((3..=18).contains(&total));
    }
    let rolls = roll_dice(50, 4);
    assert_eq!(rolls.len(), 50);
    assert!(rolls.iter().all(|r| (1..=4).contains(r)));
}

#[test]
fn single_faced_dice_total_their_count() {
    assert_eq!(roll_dice_total(1, 1), 1);
    assert_eq!(roll_dice_total(7, 1), 7);
}
