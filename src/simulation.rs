//! Replaying recorded dice to judge a player's luck.

use vstd::prelude::*;
use crate::dice::{roll_dice_total, RollSingle};

verus! {

/// One roll of a die with `faces` faces, as the expression `1d{faces}`
/// evaluates: `None` for fewer than one face or more than `u32::MAX`, and 1
/// for a single face.
pub fn roll_single_die(faces: i64) -> (r: Option<i64>)
    ensures
        r is None <==> faces < 1 || faces > u32::MAX,
        r matches Some(x) ==> 1 <= x <= faces,
        faces == 1 ==> r == Some(1i64),
{
    if faces < 1 || faces > u32::MAX as i64 {
        return None;
    }
    if faces == 1 {
        return Some(1);
    }
    Some(roll_dice_total(1, faces as u32) as i64)
}

/// How many of the replayed values beat `outcome`, and how many tied it.
pub open spec fn row_counts(sims: Seq<Option<i64>>, outcome: i64) -> (nat, nat)
    decreases sims.len(),
{
    if sims.len() == 0 {
        (0, 0)
    } else {
        let (b, t) = row_counts(sims.drop_last(), outcome);
        match sims.last() {
            Some(x) => if x > outcome {
                (b + 1, t)
            } else if x == outcome {
                (b, t + 1)
            } else {
                (b, t)
            },
            None => (b, t),
        }
    }
}

/// Wins and ties of the replays `sims[i]` of each recorded die `rolls[i]`.
pub open spec fn luck_counts(rolls: Seq<RollSingle>, sims: Seq<Seq<Option<i64>>>) -> (nat, nat)
    decreases rolls.len(),
{
    if rolls.len() == 0 || sims.len() != rolls.len() {
        (0, 0)
    } else {
        let (b, t) = luck_counts(rolls.drop_last(), sims.drop_last());
        let (b2, t2) = row_counts(sims.last(), rolls.last().outcome);
        (b + b2, t + t2)
    }
}

/// The outcome of replaying a player's dice: how many replays there were, and
/// how many beat or tied the recorded value.
#[derive(Clone, Copy, Debug, PartialEq, Eq, Structural)]
pub struct LuckTally {
    pub num_rolled: u64,
    pub num_beat: u64,
    pub num_tied: u64,
}

proof fn lemma_row_counts_bound(sims: Seq<Option<i64>>, outcome: i64)
    ensures
        row_counts(sims, outcome).0 + row_counts(sims, outcome).1 <= sims.len(),
    decreases sims.len(),
{
    if sims.len() > 0 {
        lemma_row_counts_bound(sims.drop_last(), outcome);
    }
}

fn count_row(sims: &Vec<Option<i64>>, outcome: i64) -> (r: (u64, u64))
    ensures
        r.0 == row_counts(sims@, outcome).0,
        r.1 == row_counts(sims@, outcome).1,
{
    let mut b: u64 = 0;
    let mut t: u64 = 0;
    let mut i: usize = 0;
    while i < sims.len()
        invariant
            i <= sims.len(),
            b == row_counts(sims@.take(i as int), outcome).0,
            t == row_counts(sims@.take(i as int), outcome).1,
            b + t <= i,
        decreases sims.len() - i,
    {
        assert(sims@.take(i + 1).drop_last() =~= sims@.take(i as int));
        match sims[i] {
            Some(x) => {
                if x > outcome {
                    b = b + 1;
                } else if x == outcome {
                    t = t + 1;
                }
            },
            None => {},
        }
        i = i + 1;
    }
    assert(sims@.take(sims.len() as int) =~= sims@);
    (b, t)
}

/// Tallies the replays `sims[i]` of each recorded die `rolls[i]`, where each
/// die was replayed `num_repetitions` times (`None` for a replay that gave no
/// value, which counts as a loss).
pub fn tally_luck(rolls: &Vec<RollSingle>, sims: &Vec<Vec<Option<i64>>>, num_repetitions: u64) -> (r: LuckTally)
    requires
        sims.len() == rolls.len(),
        forall|i: int| 0 <= i < sims.len() ==> (#[trigger] sims@[i])@.len() == num_repetitions,
        rolls.len() * num_repetitions <= u64::MAX,
    ensures
        r.num_rolled == rolls.len() * num_repetitions,
        r.num_beat == luck_counts(rolls@, sims@.map_values(|v: Vec<Option<i64>>| v@)).0,
        r.num_tied == luck_counts(rolls@, sims@.map_values(|v: Vec<Option<i64>>| v@)).1,
{
    let ghost views = sims@.map_values(|v: Vec<Option<i64>>| v@);
    let mut rolled: u64 = 0;
    let mut beat: u64 = 0;
    let mut tied: u64 = 0;
    let mut i: usize = 0;
    while i < rolls.len()
        invariant
            i <= rolls.len() == sims.len(),
            views == sims@.map_values(|v: Vec<Option<i64>>| v@),
            forall|j: int| 0 <= j < sims.len() ==> (#[trigger] sims@[j])@.len() == num_repetitions,
            rolls.len() * num_repetitions <= u64::MAX,
            rolled == i * num_repetitions,
            beat == luck_counts(rolls@.take(i as int), views.take(i as int)).0,
            tied == luck_counts(rolls@.take(i as int), views.take(i as int)).1,
            beat + tied <= rolled,
        decreases rolls.len() - i,
    {
        let (b, t) = count_row(&sims[i], rolls[i].outcome);
        proof {
            assert(rolls@.take(i + 1).drop_last() =~= rolls@.take(i as int));
            assert(views.take(i + 1).drop_last() =~= views.take(i as int));
            assert(views.take(i + 1).last() == sims@[i as int]@);
            lemma_row_counts_bound(sims@[i as int]@, rolls@[i as int].outcome);
            assert((i + 1) * num_repetitions == i * num_repetitions + num_repetitions) by (nonlinear_arith);
            assert((i + 1) * num_repetitions <= rolls.len() * num_repetitions) by (nonlinear_arith)
                requires i + 1 <= rolls.len();
        }
        rolled = rolled + num_repetitions;
        beat = beat + b;
        tied = tied + t;
        i = i + 1;
    }
    assert(rolls@.take(rolls.len() as int) =~= rolls@);
    assert(views.take(rolls.len() as int) =~= views);
    LuckTally { num_rolled: rolled, num_beat: beat, num_tied: tied }
}

/// A value that `roll_single_die(faces)` can give.
pub open spec fn is_replay(faces: i64, v: Option<i64>) -> bool {
    if faces < 1 || faces > u32::MAX {
        v is None
    } else {
        v matches Some(x) && 1 <= x <= faces
    }
}

/// A table of replays: `num_repetitions` values for each recorded die, each
/// one its die can give.
pub open spec fn is_replay_table(rolls: Seq<RollSingle>, sims: Seq<Seq<Option<i64>>>, num_repetitions: nat) -> bool {
    &&& sims.len() == rolls.len()
    &&& forall|i: int| 0 <= i < sims.len() ==> (#[trigger] sims[i]).len() == num_repetitions
    &&& forall|i: int, j: int| 0 <= i < sims.len() && 0 <= j < sims[i].len() ==> is_replay(rolls[i].faces, #[trigger] sims[i][j])
}

/// Replays each recorded die `num_repetitions` times and tallies the replays
/// against the recorded values: the tally is that of some table of replays
/// that the dice can give.
pub fn simulate_luck(rolls: &Vec<RollSingle>, num_repetitions: u64) -> (r: LuckTally)
    requires
        rolls.len() * num_repetitions <= u64::MAX,
    ensures
        r.num_rolled == rolls.len() * num_repetitions,
        r.num_beat + r.num_tied <= r.num_rolled,
        exists|sims: Seq<Seq<Option<i64>>>| is_replay_table(rolls@, sims, num_repetitions as nat)
            && r.num_beat == luck_counts(rolls@, sims).0 && r.num_tied == luck_counts(rolls@, sims).1,
{
    let mut sims: Vec<Vec<Option<i64>>> = Vec::new();
    let mut i: usize = 0;
    while i < rolls.len()
        invariant
            i <= rolls.len(),
            sims.len() == i,
            forall|j: int| 0 <= j < i ==> (#[trigger] sims@[j])@.len() == num_repetitions,
            forall|j: int, m: int| 0 <= j < i && 0 <= m < sims@[j]@.len() ==> is_replay(rolls@[j].faces, #[trigger] sims@[j]@[m]),
        decreases rolls.len() - i,
    {
        let faces = rolls[i].faces;
        let mut row: Vec<Option<i64>> = Vec::new();
        let mut k: u64 = 0;
        while k < num_repetitions
            invariant
                k <= num_repetitions,
                row@.len() == k,
                forall|m: int| 0 <= m < row@.len() ==> is_replay(faces, #[trigger] row@[m]),
            decreases num_repetitions - k,
        {
            row.push(roll_single_die(faces));
            k = k + 1;
        }
        sims.push(row);
        i = i + 1;
    }
    let r = tally_luck(rolls, &sims, num_repetitions);
    let ghost table = sims@.map_values(|v: Vec<Option<i64>>| v@);
    proof {
        lemma_luck_counts_bound(rolls@, table, num_repetitions as nat);
        assert(is_replay_table(rolls@, table, num_repetitions as nat)) by {
            assert forall|a: int, b: int| 0 <= a < table.len() && 0 <= b < table[a].len() implies is_replay(rolls@[a].faces, #[trigger] table[a][b]) by {
                assert(table[a] == sims@[a]@);
            }
        }
    }
    r
}

proof fn lemma_luck_counts_bound(rolls: Seq<RollSingle>, sims: Seq<Seq<Option<i64>>>, n: nat)
    requires
        sims.len() == rolls.len(),
        forall|i: int| 0 <= i < sims.len() ==> (#[trigger] sims[i]).len() == n,
    ensures
        luck_counts(rolls, sims).0 + luck_counts(rolls, sims).1 <= rolls.len() * n,
    decreases rolls.len(),
{
    if rolls.len() > 0 {
        lemma_luck_counts_bound(rolls.drop_last(), sims.drop_last(), n);
        lemma_row_counts_bound(sims.last(), rolls.last().outcome);
        assert(rolls.len() * n == (rolls.len() - 1) * n + n) by (nonlinear_arith)
            requires rolls.len() >= 1;
    }
}

} // verus!
