//! Dice: rolling them, and reattaching rolled values to a formula.

use vstd::prelude::*;
use crate::expression::is_digit;
use crate::text::chars_of;

verus! {

/// One die: its number of faces and the value it showed.
#[derive(Clone, Copy, Debug, PartialEq, Eq, Structural)]
pub struct RollSingle {
    pub faces: i64,
    pub outcome: i64,
}

/// Relies on rand's `Rng::gen_range` over `1..=faces` with the thread-local
/// generator: a value from 1 to `faces`, both included.
#[verifier::external_body]
fn roll_die(faces: u32) -> (r: u32)
    requires
        faces >= 1,
    ensures
        1 <= r <= faces,
{
    rand::Rng::gen_range(&mut rand::thread_rng(), 1..=faces)
}

/// Rolls `number` dice of `faces` faces each.
pub fn roll_dice(number: u32, faces: u32) -> (r: Vec<u32>)
    requires
        faces >= 1,
    ensures
        r.len() == number,
        forall|i: int| 0 <= i < r.len() ==> 1 <= #[trigger] r[i] <= faces,
{
    let mut results: Vec<u32> = Vec::new();
    let mut i: u32 = 0;
    while i < number
        invariant
            i <= number,
            results.len() == i,
            faces >= 1,
            forall|j: int| 0 <= j < results.len() ==> 1 <= #[trigger] results[j] <= faces,
        decreases number - i,
    {
        results.push(roll_die(faces));
        i = i + 1;
    }
    results
}

pub open spec fn sum_of(v: Seq<u32>) -> int
    decreases v.len(),
{
    if v.len() == 0 {
        0
    } else {
        sum_of(v.drop_last()) + v.last()
    }
}

/// The sum of `number` dice of `faces` faces each, rolled anew: between
/// `number` and `number * faces`.
pub fn roll_dice_total(number: u32, faces: u32) -> (r: u64)
    requires
        faces >= 1,
    ensures
        number <= r <= number as int * faces as int,
{
    let rolls = roll_dice(number, faces);
    let mut total: u64 = 0;
    let mut i: usize = 0;
    while i < rolls.len()
        invariant
            i <= rolls.len(),
            rolls.len() == number,
            forall|j: int| 0 <= j < rolls.len() ==> 1 <= #[trigger] rolls[j] <= faces,
            total == sum_of(rolls@.take(i as int)),
            i <= total <= i as int * faces as int,
        decreases rolls.len() - i,
    {
        let x = rolls[i];
        assert(rolls@.take(i + 1).drop_last() =~= rolls@.take(i as int));
        proof {
            assert((i + 1) as int * faces as int == i as int * faces as int + faces as int) by (nonlinear_arith);
            assert(i as int * faces as int <= 0xffff_ffff * 0xffff_ffff) by (nonlinear_arith)
                requires i <= 0xffff_ffff, faces <= 0xffff_ffff;
        }
        total = total + x as u64;
        i = i + 1;
    }
    total
}

/// The number that a string of decimal digits spells.
pub open spec fn digits_value(t: Seq<char>) -> nat
    decreases t.len(),
{
    if t.len() == 0 {
        0
    } else {
        digits_value(t.drop_last()) * 10 + (t.last() as nat - '0' as nat) as nat
    }
}

/// A string of digits that reads as an `i64`.
pub open spec fn reads_as_i64(t: Seq<char>) -> bool {
    t.len() > 0 && digits_value(t) <= i64::MAX
}

pub(crate) proof fn lemma_digits_value_prefix(t: Seq<char>, n: int)
    requires
        0 <= n <= t.len(),
        forall|i: int| 0 <= i < t.len() ==> is_digit(#[trigger] t[i]),
    ensures
        digits_value(t.take(n)) <= digits_value(t),
    decreases t.len() - n,
{
    if n < t.len() {
        lemma_digits_value_prefix(t, n + 1);
        assert(t.take(n + 1).drop_last() =~= t.take(n));
    } else {
        assert(t.take(n) =~= t);
    }
}

/// Reads a string of digits as an `i64`; `None` where it is empty or too large.
fn parse_digits(t: &Vec<char>) -> (r: Option<i64>)
    requires
        forall|i: int| 0 <= i < t.len() ==> is_digit(#[trigger] t@[i]),
    ensures
        r is Some <==> reads_as_i64(t@),
        r matches Some(v) ==> v == digits_value(t@),
{
    if t.len() == 0 {
        return None;
    }
    let mut value: i64 = 0;
    let mut i: usize = 0;
    while i < t.len()
        invariant
            i <= t.len(),
            forall|j: int| 0 <= j < t.len() ==> is_digit(#[trigger] t@[j]),
            value == digits_value(t@.take(i as int)),
        decreases t.len() - i,
    {
        let d = (t[i] as u32 - '0' as u32) as i64;
        assert(t@.take(i + 1).drop_last() =~= t@.take(i as int));
        if value > (i64::MAX - d) / 10 {
            proof {
                lemma_digits_value_prefix(t@, i + 1);
            }
            return None;
        }
        value = value * 10 + d;
        i = i + 1;
    }
    assert(t@.take(t.len() as int) =~= t@);
    Some(value)
}

/// What the decomposer holds while it scans a formula: the count of the dice
/// term being read (empty where none is), the digits read since the last
/// delimiter, the outcomes not yet handed out, and the dice so far.
pub ghost struct ScanState {
    pub count: Seq<char>,
    pub digits: Seq<char>,
    pub rest: Seq<i64>,
    pub dice: Seq<RollSingle>,
}

/// The first `n` of `rest` as dice of `faces` faces.
pub open spec fn dice_of(rest: Seq<i64>, n: int, faces: i64) -> Seq<RollSingle> {
    rest.take(n).map_values(|o: i64| RollSingle { faces, outcome: o })
}

/// Closes the term `count d digits`: hands out `count` outcomes, each as a die
/// of `digits` faces. `None` where too few outcomes are left.
pub open spec fn take_dice(st: ScanState, faces: i64) -> Option<ScanState> {
    let n = digits_value(st.count) as int;
    if st.rest.len() < n {
        None
    } else {
        Some(ScanState {
            count: Seq::empty(),
            digits: Seq::empty(),
            rest: st.rest.skip(n),
            dice: st.dice + dice_of(st.rest, n, faces),
        })
    }
}

/// One character of the formula. After a `d` the digits read so far (or 1)
/// become the count; a delimiter after a count closes the term when the digits
/// since the `d` read as a face count, and drops it otherwise.
pub open spec fn scan_step(st: ScanState, c: char) -> Option<ScanState> {
    if c == 'd' {
        Some(ScanState {
            count: if st.digits.len() > 0 { st.digits } else { seq!['1'] },
            digits: Seq::empty(),
            ..st
        })
    } else if is_digit(c) {
        Some(ScanState { digits: st.digits.push(c), ..st })
    } else if st.count.len() == 0 {
        Some(ScanState { digits: Seq::empty(), ..st })
    } else if !reads_as_i64(st.count) {
        None
    } else if reads_as_i64(st.digits) {
        take_dice(st, digits_value(st.digits) as i64)
    } else {
        Some(ScanState { count: Seq::empty(), digits: Seq::empty(), ..st })
    }
}

pub open spec fn scan(s: Seq<char>, outcomes: Seq<i64>) -> Option<ScanState>
    decreases s.len(),
{
    if s.len() == 0 {
        Some(ScanState { count: Seq::empty(), digits: Seq::empty(), rest: outcomes, dice: Seq::empty() })
    } else {
        match scan(s.drop_last(), outcomes) {
            Some(st) => scan_step(st, s.last()),
            None => None,
        }
    }
}

/// The end of the formula: a pending term must be complete, and every outcome
/// must have been handed out.
pub open spec fn scan_end(st: ScanState) -> Option<Seq<RollSingle>> {
    let closed = if st.count.len() == 0 {
        Some(st)
    } else if reads_as_i64(st.count) && reads_as_i64(st.digits) {
        take_dice(st, digits_value(st.digits) as i64)
    } else {
        None
    };
    match closed {
        Some(c) => if c.rest.len() == 0 {
            Some(c.dice)
        } else {
            None
        },
        None => None,
    }
}

/// The dice of `formula` with `outcomes` reattached, left to right.
pub open spec fn decomposition(formula: Seq<char>, outcomes: Seq<i64>) -> Option<Seq<RollSingle>> {
    match scan(formula, outcomes) {
        Some(st) => scan_end(st),
        None => None,
    }
}

proof fn lemma_scan_fails_on_prefix(s: Seq<char>, outcomes: Seq<i64>, n: int)
    requires
        0 <= n <= s.len(),
        scan(s.take(n), outcomes) is None,
    ensures
        scan(s, outcomes) is None,
    decreases s.len() - n,
{
    if n < s.len() {
        assert(s.take(n + 1).drop_last() =~= s.take(n));
        lemma_scan_fails_on_prefix(s, outcomes, n + 1);
    } else {
        assert(s.take(n) =~= s);
    }
}

/// Appends the `n` outcomes from `next` on, each as a die of `faces` faces.
fn hand_out(outcomes: &Vec<i64>, next: usize, n: usize, faces: i64, dice: &mut Vec<RollSingle>)
    requires
        next + n <= outcomes.len(),
    ensures
        final(dice)@ == old(dice)@ + dice_of(outcomes@.skip(next as int), n as int, faces),
{
    let ghost start = dice@;
    let mut k: usize = 0;
    while k < n
        invariant
            k <= n,
            next + n <= outcomes.len(),
            dice@ == start + dice_of(outcomes@.skip(next as int), k as int, faces),
        decreases n - k,
    {
        dice.push(RollSingle { faces, outcome: outcomes[next + k] });
        assert(dice_of(outcomes@.skip(next as int), k + 1, faces) =~= dice_of(outcomes@.skip(next as int), k as int, faces).push(RollSingle { faces, outcome: outcomes@[next + k] }));
        k = k + 1;
    }
}

/// Closes the pending term; see `take_dice`. Returns the new position in
/// `outcomes`, or `None` where too few are left.
fn close_term(outcomes: &Vec<i64>, next: usize, n: i64, faces: i64, dice: &mut Vec<RollSingle>) -> (r: Option<usize>)
    requires
        next <= outcomes.len(),
        n >= 0,
    ensures
        r is Some <==> outcomes.len() - next >= n,
        r matches Some(e) ==> e == next + n && final(dice)@ == old(dice)@ + dice_of(outcomes@.skip(next as int), n as int, faces),
{
    if (n as u64) > ((outcomes.len() - next) as u64) {
        return None;
    }
    hand_out(outcomes, next, n as usize, faces, dice);
    Some(next + n as usize)
}

/// The dice of `formula`, left to right, each with the next value of
/// `outcomes` (see `decomposition`). A term `NdM` takes `N` values (1 where
/// `N` is left out) as dice of `M` faces; modifiers after a term are skipped.
/// `None` where the outcomes run out, where values are left over, or where the
/// formula ends in an incomplete term.
pub fn decompose(formula: &str, outcomes: &Vec<i64>) -> (r: Option<Vec<RollSingle>>)
    ensures
        r is Some <==> decomposition(formula@, outcomes@) is Some,
        r matches Some(v) ==> v@ == decomposition(formula@, outcomes@)->0,
{
    let s = chars_of(formula);
    let mut count: Vec<char> = Vec::new();
    let mut digits: Vec<char> = Vec::new();
    let mut next: usize = 0;
    let mut dice: Vec<RollSingle> = Vec::new();
    let mut i: usize = 0;
    assert(outcomes@.skip(0) =~= outcomes@);
    while i < s.len()
        invariant
            i <= s.len(),
            next <= outcomes.len(),
            s@ == formula@,
            forall|j: int| 0 <= j < count.len() ==> is_digit(#[trigger] count@[j]),
            forall|j: int| 0 <= j < digits.len() ==> is_digit(#[trigger] digits@[j]),
            scan(s@.take(i as int), outcomes@) == Some(ScanState {
                count: count@,
                digits: digits@,
                rest: outcomes@.skip(next as int),
                dice: dice@,
            }),
        decreases s.len() - i,
    {
        let c = s[i];
        assert(s@.take(i + 1).drop_last() =~= s@.take(i as int));
        if c == 'd' {
            if digits.len() > 0 {
                count = digits;
            } else {
                count = Vec::new();
                count.push('1');
                assert(count@ =~= seq!['1']);
            }
            digits = Vec::new();
            assert(digits@ =~= Seq::<char>::empty());
        } else if '0' <= c && c <= '9' {
            digits.push(c);
        } else {
            if count.len() > 0 {
                let n = match parse_digits(&count) {
                    Some(n) => n,
                    None => {
                        proof {
                            lemma_scan_fails_on_prefix(s@, outcomes@, i + 1);
                        }
                        return None;
                    },
                };
                if let Some(faces) = parse_digits(&digits) {
                    match close_term(outcomes, next, n, faces, &mut dice) {
                        Some(e) => {
                            assert(outcomes@.skip(next as int).skip(n as int) =~= outcomes@.skip(e as int));
                            next = e;
                        },
                        None => {
                            proof {
                                lemma_scan_fails_on_prefix(s@, outcomes@, i + 1);
                            }
                            return None;
                        },
                    }
                }
                count = Vec::new();
            }
            digits = Vec::new();
            assert(digits@ =~= Seq::<char>::empty());
        }
        proof {
            if count.len() == 0 {
                assert(count@ =~= Seq::<char>::empty());
            }
        }
        i = i + 1;
    }
    assert(s@.take(s.len() as int) =~= s@);
    if count.len() > 0 {
        let n = match parse_digits(&count) {
            Some(n) => n,
            None => return None,
        };
        let faces = match parse_digits(&digits) {
            Some(f) => f,
            None => return None,
        };
        match close_term(outcomes, next, n, faces, &mut dice) {
            Some(e) => {
                assert(outcomes@.skip(next as int).skip(n as int) =~= outcomes@.skip(e as int));
                next = e;
            },
            None => return None,
        }
    } else {
        assert(count@ =~= Seq::<char>::empty());
    }
    if next < outcomes.len() {
        return None;
    }
    Some(dice)
}

pub open spec fn outcomes_of(dice: Seq<RollSingle>) -> Seq<i64> {
    dice.map_values(|d: RollSingle| d.outcome)
}

proof fn lemma_take_dice_keeps_outcomes(st: ScanState, faces: i64)
    requires
        take_dice(st, faces) is Some,
    ensures
        outcomes_of(take_dice(st, faces)->0.dice) + take_dice(st, faces)->0.rest
            == outcomes_of(st.dice) + st.rest,
{
    let n = digits_value(st.count) as int;
    let after = take_dice(st, faces)->0;
    assert(outcomes_of(dice_of(st.rest, n, faces)) =~= st.rest.take(n));
    assert(outcomes_of(after.dice) =~= outcomes_of(st.dice) + st.rest.take(n));
    assert(st.rest.take(n) + st.rest.skip(n) =~= st.rest);
    assert(outcomes_of(after.dice) + after.rest =~= outcomes_of(st.dice) + st.rest);
}

proof fn lemma_scan_keeps_outcomes(s: Seq<char>, outcomes: Seq<i64>)
    requires
        scan(s, outcomes) is Some,
    ensures
        outcomes_of(scan(s, outcomes)->0.dice) + scan(s, outcomes)->0.rest == outcomes,
    decreases s.len(),
{
    if s.len() == 0 {
        assert(outcomes_of(Seq::<RollSingle>::empty()) + outcomes =~= outcomes);
    } else {
        let st = scan(s.drop_last(), outcomes)->0;
        lemma_scan_keeps_outcomes(s.drop_last(), outcomes);
        let c = s.last();
        if !(c == 'd' || is_digit(c) || st.count.len() == 0) && reads_as_i64(st.count) && reads_as_i64(st.digits) {
            lemma_take_dice_keeps_outcomes(st, digits_value(st.digits) as i64);
        }
    }
}

/// A decomposition hands out every outcome, each once and in order: the dice
/// it gives, read off in order, are exactly the outcomes it was given.
pub proof fn lemma_decomposition_keeps_outcomes(formula: Seq<char>, outcomes: Seq<i64>)
    requires
        decomposition(formula, outcomes) is Some,
    ensures
        outcomes_of(decomposition(formula, outcomes)->0) == outcomes,
{
    let st = scan(formula, outcomes)->0;
    lemma_scan_keeps_outcomes(formula, outcomes);
    if st.count.len() > 0 {
        lemma_take_dice_keeps_outcomes(st, digits_value(st.digits) as i64);
        let c = take_dice(st, digits_value(st.digits) as i64)->0;
        assert(outcomes_of(c.dice) + c.rest =~= outcomes_of(c.dice));
    } else {
        assert(outcomes_of(st.dice) + st.rest =~= outcomes_of(st.dice));
    }
}

/// The decimal digits of `n`, most significant first.
pub open spec fn decimal_digits(n: nat) -> Seq<char>
    decreases n,
{
    if n < 10 {
        seq![('0' as nat + n) as char]
    } else {
        decimal_digits(n / 10).push(('0' as nat + n % 10) as char)
    }
}

/// `d` with a comma before each group of three counted from the right.
pub open spec fn group_thousands(d: Seq<char>) -> Seq<char>
    decreases d.len(),
{
    if d.len() <= 3 {
        d
    } else {
        group_thousands(d.take(d.len() - 3)) + seq![','] + d.skip(d.len() - 3)
    }
}

pub(crate) fn digits_of_u64(n: u64) -> (r: Vec<char>)
    ensures
        r@ == decimal_digits(n as nat),
    decreases n,
{
    let d = ((n % 10) as u8 + 48u8) as char;
    if n < 10 {
        let mut v: Vec<char> = Vec::new();
        v.push(d);
        assert(v@ =~= decimal_digits(n as nat));
        v
    } else {
        let mut v = digits_of_u64(n / 10);
        v.push(d);
        v
    }
}

/// `group_thousands` of the first `end` characters of `d`.
fn group_prefix(d: &Vec<char>, end: usize) -> (r: Vec<char>)
    requires
        end <= d.len(),
    ensures
        r@ == group_thousands(d@.take(end as int)),
    decreases end,
{
    if end <= 3 {
        let mut r: Vec<char> = Vec::new();
        let mut i: usize = 0;
        while i < end
            invariant
                i <= end <= d.len(),
                r@ == d@.take(i as int),
            decreases end - i,
        {
            r.push(d[i]);
            assert(d@.take(i + 1) =~= d@.take(i as int).push(d@[i as int]));
            i = i + 1;
        }
        r
    } else {
        let mut r = group_prefix(d, end - 3);
        r.push(',');
        let mut i: usize = end - 3;
        let ghost head = r@;
        while i < end
            invariant
                3 < end <= d.len(),
                end - 3 <= i <= end,
                r@ == head + d@.subrange(end - 3, i as int),
            decreases end - i,
        {
            r.push(d[i]);
            assert(d@.subrange(end - 3, i + 1) =~= d@.subrange(end - 3, i as int).push(d@[i as int]));
            i = i + 1;
        }
        let ghost t = d@.take(end as int);
        assert(t.take(t.len() - 3) =~= d@.take(end - 3));
        assert(t.skip(t.len() - 3) =~= d@.subrange(end - 3, end as int));
        r
    }
}

/// `num` in decimal with a comma between groups of three digits
/// (`1234567` is `1,234,567`).
pub fn num_with_thousands_commas(num: u64) -> (r: String)
    ensures
        r@ == group_thousands(decimal_digits(num as nat)),
{
    let d = digits_of_u64(num);
    let g = group_prefix(&d, d.len());
    assert(d@.take(d.len() as int) =~= d@);
    crate::text::string_from_chars(g.as_slice())
}

} // verus!
