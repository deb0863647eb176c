//! The dice/arithmetic expression grammar.
//!
//! An expression is read by precedence climbing, one character at a time, into
//! a postfix sequence of numerals and operators. Evaluating that sequence is a
//! plain stack fold; the numeric side (and the randomness of `d`) lives with
//! the caller.

use vstd::prelude::*;
use crate::text::{chars_of, string_from_chars};

verus! {

/// Binding strength of an operator character, or `None` for any other character.
pub open spec fn precedence(c: char) -> Option<int> {
    if c == '+' || c == '-' {
        Some(1)
    } else if c == '*' || c == '/' {
        Some(2)
    } else if c == '^' {
        Some(3)
    } else if c == 'd' {
        Some(4)
    } else {
        None
    }
}

/// Binding strength of `symbol` as an operator: `+ -` 1, `* /` 2, `^` 3, `d` 4.
pub fn get_precedence(symbol: char) -> (r: Option<i32>)
    ensures
        r matches Some(p) ==> precedence(symbol) == Some(p as int),
        r is None <==> precedence(symbol) is None,
{
    match symbol {
        '+' => Some(1),
        '-' => Some(1),
        '*' => Some(2),
        '/' => Some(2),
        '^' => Some(3),
        'd' => Some(4),
        _ => None,
    }
}

pub open spec fn is_digit(c: char) -> bool {
    '0' <= c && c <= '9'
}

/// The number of positions of `t` that hold `c`.
pub open spec fn count_char(t: Seq<char>, c: char) -> nat
    decreases t.len(),
{
    if t.len() == 0 {
        0
    } else {
        count_char(t.drop_last(), c) + if t.last() == c { 1nat } else { 0nat }
    }
}

/// Text made of digits and `.` that reads as a decimal number: at least one
/// digit and at most one point (`7`, `2.5`, `3.`, `.5`).
pub open spec fn is_numeral(t: Seq<char>) -> bool {
    &&& forall|i: int| 0 <= i < t.len() ==> (is_digit(#[trigger] t[i]) || t[i] == '.')
    &&& exists|i: int| 0 <= i < t.len() && is_digit(#[trigger] t[i])
    &&& count_char(t, '.') <= 1
}

/// One item of a postfix expression.
pub ghost enum Symbol {
    Number(Seq<char>),
    Operator(char),
}

/// One item of a postfix expression: a numeral as written, or an operator
/// applied to the two values before it.
#[derive(Debug)]
pub enum DiceToken {
    Number(String),
    Operator(char),
}

impl DiceToken {
    pub open spec fn model(&self) -> Symbol {
        match self {
            DiceToken::Number(s) => Symbol::Number(s@),
            DiceToken::Operator(c) => Symbol::Operator(*c),
        }
    }
}

pub open spec fn model_of(ts: Seq<DiceToken>) -> Seq<Symbol> {
    ts.map_values(|t: DiceToken| t.model())
}

/// What a frame holds between operators: nothing yet, a numeral being read,
/// or the value of a parenthesised group.
pub ghost enum Pending {
    Empty,
    Digits(Seq<char>),
    Value(Seq<Symbol>),
}

/// The operand that `p` stands for, if it is a complete one.
pub open spec fn operand(p: Pending) -> Option<Seq<Symbol>> {
    match p {
        Pending::Empty => None,
        Pending::Digits(t) => if is_numeral(t) {
            Some(seq![Symbol::Number(t)])
        } else {
            None
        },
        Pending::Value(v) => Some(v),
    }
}

/// `first op o` in postfix form, where `o` is the operand that `p` stands for.
pub open spec fn fold_operand(first: Seq<Symbol>, p: Pending, op: char) -> Option<Seq<Symbol>> {
    match operand(p) {
        Some(o) => Some(first + o + seq![Symbol::Operator(op)]),
        None => None,
    }
}

/// The postfix form of the frame that is at `pos` of `s`, with value `first`
/// so far, current operator `op`, pending operand `p`, and `floor` the
/// binding strength of the operator the frame is the right operand of (0 for
/// a whole expression or a parenthesised group), with the position just after
/// the frame ends.
///
/// An operator that binds tighter than `op` opens a frame of its own, whose
/// value becomes the pending operand; one that binds no tighter than `op` but
/// tighter than `floor` folds the pending operand into `first`; one that binds
/// no tighter than `floor` ends the frame and is left to the frame around it.
/// `(` opens a frame that starts at zero, and an operand just before it
/// multiplies its value. `)` ends the frame, and is consumed by a frame with
/// floor 0. The end of the text ends the frame. Any other character is
/// skipped.
pub open spec fn frame(s: Seq<char>, pos: int, first: Seq<Symbol>, op: char, p: Pending, floor: int) -> Option<(Seq<Symbol>, int)>
    decreases s.len() - pos,
{
    if pos < 0 || pos >= s.len() {
        match fold_operand(first, p, op) {
            Some(r) => Some((r, s.len() as int)),
            None => None,
        }
    } else {
        let c = s[pos];
        if c == '(' {
            match frame(s, pos + 1, zero(), '+', Pending::Empty, 0) {
                None => None,
                Some((nested, end)) => {
                    let v = match p {
                        Pending::Empty => Some(nested),
                        _ => match operand(p) {
                            Some(o) => Some(o + nested + seq![Symbol::Operator('*')]),
                            None => None,
                        },
                    };
                    match v {
                        Some(v) => if pos < end <= s.len() {
                            frame(s, end, first, op, Pending::Value(v), floor)
                        } else {
                            None
                        },
                        None => None,
                    }
                },
            }
        } else if c == ')' {
            match fold_operand(first, p, op) {
                Some(r) => Some((r, if floor > 0 { pos } else { pos + 1 })),
                None => None,
            }
        } else if precedence(c) is Some {
            match operand(p) {
                None => None,
                Some(o) => if precedence(c)->0 <= floor {
                    Some((first + o + seq![Symbol::Operator(op)], pos))
                } else if precedence(c)->0 > precedence(op)->0 {
                    match frame(s, pos + 1, o, c, Pending::Empty, precedence(op)->0) {
                        Some((sub, end)) => if pos < end <= s.len() {
                            frame(s, end, first, op, Pending::Value(sub), floor)
                        } else {
                            None
                        },
                        None => None,
                    }
                } else {
                    frame(s, pos + 1, first + o + seq![Symbol::Operator(op)], c, Pending::Empty, floor)
                },
            }
        } else if !is_digit(c) && c != '.' {
            frame(s, pos + 1, first, op, p, floor)
        } else {
            match p {
                Pending::Value(_) => None,
                Pending::Empty => frame(s, pos + 1, first, op, Pending::Digits(seq![c]), floor),
                Pending::Digits(t) => frame(s, pos + 1, first, op, Pending::Digits(t.push(c)), floor),
            }
        }
    }
}

/// The value a frame starts from.
pub open spec fn zero() -> Seq<Symbol> {
    seq![Symbol::Number(seq!['0'])]
}

/// The postfix form of a whole expression, if it is well formed.
pub open spec fn postfix_of(s: Seq<char>) -> Option<Seq<Symbol>> {
    match frame(s, 0, zero(), '+', Pending::Empty, 0) {
        Some((r, _)) => Some(r),
        None => None,
    }
}

/// A pending operand as the reader holds it.
enum PendingOperand {
    Empty,
    Digits(Vec<char>),
    Value(Vec<DiceToken>),
}

impl PendingOperand {
    spec fn model(&self) -> Pending {
        match self {
            PendingOperand::Empty => Pending::Empty,
            PendingOperand::Digits(t) => Pending::Digits(t@),
            PendingOperand::Value(v) => Pending::Value(model_of(v@)),
        }
    }
}

proof fn lemma_model_of_concat(a: Seq<DiceToken>, b: Seq<DiceToken>)
    ensures
        model_of(a + b) == model_of(a) + model_of(b),
{
    assert(model_of(a + b) =~= model_of(a) + model_of(b));
}

proof fn lemma_model_of_push(a: Seq<DiceToken>, t: DiceToken)
    ensures
        model_of(a.push(t)) == model_of(a).push(t.model()),
{
    assert(model_of(a.push(t)) =~= model_of(a).push(t.model()));
}

fn is_digit_char(c: char) -> (r: bool)
    ensures
        r == is_digit(c),
{
    '0' <= c && c <= '9'
}

pub(crate) fn check_numeral(t: &[char]) -> (r: bool)
    ensures
        r == is_numeral(t@),
{
    let mut points: usize = 0;
    let mut has_digit = false;
    let mut i: usize = 0;
    while i < t.len()
        invariant
            i <= t.len(),
            forall|j: int| 0 <= j < i ==> (is_digit(#[trigger] t@[j]) || t@[j] == '.'),
            has_digit == exists|j: int| 0 <= j < i && is_digit(#[trigger] t@[j]),
            points as nat == count_char(t@.take(i as int), '.'),
            points <= 1,
        decreases t.len() - i,
    {
        let c = t[i];
        assert(t@.take(i + 1).drop_last() =~= t@.take(i as int));
        if is_digit_char(c) {
            has_digit = true;
        } else if c == '.' {
            if points == 1 {
                assert(count_char(t@.take(i + 1), '.') == 2);
                assert(count_char(t@, '.') >= 2) by {
                    lemma_count_char_prefix(t@, i + 1);
                }
                return false;
            }
            points = points + 1;
        } else {
            return false;
        }
        i = i + 1;
    }
    assert(t@.take(t.len() as int) =~= t@);
    has_digit
}

proof fn lemma_count_char_prefix(t: Seq<char>, n: int)
    requires
        0 <= n <= t.len(),
    ensures
        count_char(t.take(n), '.') <= count_char(t, '.'),
    decreases t.len() - n,
{
    if n < t.len() {
        lemma_count_char_prefix(t, n + 1);
        assert(t.take(n + 1).drop_last() =~= t.take(n));
    } else {
        assert(t.take(n) =~= t);
    }
}

fn number_token(t: &Vec<char>) -> (r: DiceToken)
    ensures
        r.model() == Symbol::Number(t@),
{
    DiceToken::Number(string_from_chars(t.as_slice()))
}

fn take_operand(p: PendingOperand) -> (r: Option<Vec<DiceToken>>)
    ensures
        r is Some <==> operand(p.model()) is Some,
        r matches Some(v) ==> model_of(v@) == operand(p.model())->0,
{
    match p {
        PendingOperand::Empty => None,
        PendingOperand::Digits(t) => {
            if check_numeral(t.as_slice()) {
                let mut v: Vec<DiceToken> = Vec::new();
                v.push(number_token(&t));
                assert(model_of(v@) =~= seq![Symbol::Number(t@)]);
                Some(v)
            } else {
                None
            }
        },
        PendingOperand::Value(v) => Some(v),
    }
}

/// `first`, then `o`, then `op`.
fn fold_into(first: Vec<DiceToken>, o: Vec<DiceToken>, op: char) -> (r: Vec<DiceToken>)
    ensures
        model_of(r@) == model_of(first@) + model_of(o@) + seq![Symbol::Operator(op)],
{
    let mut first = first;
    let mut o = o;
    proof {
        lemma_model_of_concat(first@, o@);
    }
    first.append(&mut o);
    proof {
        lemma_model_of_push(first@, DiceToken::Operator(op));
    }
    first.push(DiceToken::Operator(op));
    first
}

fn zero_tokens() -> (r: Vec<DiceToken>)
    ensures
        model_of(r@) == zero(),
{
    let mut z: Vec<char> = Vec::new();
    z.push('0');
    let mut r: Vec<DiceToken> = Vec::new();
    r.push(number_token(&z));
    assert(model_of(r@) =~= zero());
    r
}

pub open spec fn frame_result_model(r: Option<(Vec<DiceToken>, usize)>) -> Option<(Seq<Symbol>, int)> {
    match r {
        Some((v, e)) => Some((model_of(v@), e as int)),
        None => None,
    }
}

fn finish_frame(first: Vec<DiceToken>, op: char, p: PendingOperand, end: usize) -> (r: Option<(Vec<DiceToken>, usize)>)
    ensures
        frame_result_model(r) == (match fold_operand(model_of(first@), p.model(), op) {
            Some(f) => Some((f, end as int)),
            None => None,
        }),
{
    match take_operand(p) {
        Some(o) => Some((fold_into(first, o, op), end)),
        None => None,
    }
}

/// Reads the frame that starts at `start`; see `frame`.
fn read_frame(s: &Vec<char>, start: usize, first_start: Vec<DiceToken>, op_start: char, pending_start: PendingOperand, floor: i32) -> (r: Option<(Vec<DiceToken>, usize)>)
    requires
        start <= s.len(),
        precedence(op_start) is Some,
        0 <= floor <= 4,
    ensures
        frame_result_model(r) == frame(s@, start as int, model_of(first_start@), op_start, pending_start.model(), floor as int),
        r matches Some((_, e)) ==> start <= e <= s.len(),
    decreases s.len() - start,
{
    let ghost goal = frame(s@, start as int, model_of(first_start@), op_start, pending_start.model(), floor as int);
    let mut first = first_start;
    let mut op = op_start;
    let mut p = pending_start;
    let mut pos = start;
    loop
        invariant
            start <= pos <= s.len(),
            0 <= floor <= 4,
            precedence(op) is Some,
            frame(s@, pos as int, model_of(first@), op, p.model(), floor as int) == goal,
            goal == frame(s@, start as int, model_of(first_start@), op_start, pending_start.model(), floor as int),
        decreases s.len() - pos,
    {
        if pos == s.len() {
            return finish_frame(first, op, p, pos);
        }
        let c = s[pos];
        if c == '(' {
            match read_frame(s, pos + 1, zero_tokens(), '+', PendingOperand::Empty, 0) {
                None => return None,
                Some((nested, end)) => {
                    let v = match p {
                        PendingOperand::Empty => nested,
                        _ => match take_operand(p) {
                            Some(o) => fold_into(o, nested, '*'),
                            None => return None,
                        },
                    };
                    p = PendingOperand::Value(v);
                    pos = end;
                },
            }
        } else if c == ')' {
            return finish_frame(first, op, p, if floor > 0 { pos } else { pos + 1 });
        } else if let Some(next_precedence) = get_precedence(c) {
            let current = get_precedence(op).unwrap();
            match take_operand(p) {
                None => return None,
                Some(o) => {
                    if next_precedence <= floor {
                        return Some((fold_into(first, o, op), pos));
                    }
                    if next_precedence > current {
                        match read_frame(s, pos + 1, o, c, PendingOperand::Empty, current) {
                            Some((sub, end)) => {
                                p = PendingOperand::Value(sub);
                                pos = end;
                            },
                            None => return None,
                        }
                    } else {
                        first = fold_into(first, o, op);
                        op = c;
                        p = PendingOperand::Empty;
                        pos = pos + 1;
                    }
                },
            }
        } else if !is_digit_char(c) && c != '.' {
            pos = pos + 1;
        } else {
            match p {
                PendingOperand::Value(_) => return None,
                PendingOperand::Empty => {
                    let mut t: Vec<char> = Vec::new();
                    t.push(c);
                    assert(t@ =~= seq![c]);
                    p = PendingOperand::Digits(t);
                },
                PendingOperand::Digits(t) => {
                    let mut t = t;
                    t.push(c);
                    p = PendingOperand::Digits(t);
                },
            }
            pos = pos + 1;
        }
    }
}

/// Reads `expr` into postfix form: the numerals as written and the operators
/// in the order in which they apply, or `None` where the text is malformed (an
/// operator without a left operand, a numeral that is not a decimal number, a
/// digit right after a closing parenthesis).
pub fn parse_dicemath(expr: &str) -> (r: Option<Vec<DiceToken>>)
    ensures
        r is Some <==> postfix_of(expr@) is Some,
        r matches Some(v) ==> model_of(v@) == postfix_of(expr@)->0,
{
    let s = chars_of(expr);
    match read_frame(&s, 0, zero_tokens(), '+', PendingOperand::Empty, 0) {
        Some((v, _)) => Some(v),
        None => None,
    }
}

/// The text `nums[k] ops[k] nums[k + 1] ...` from the operator after the
/// `k`-th numeral on: every operator followed by its right numeral.
pub open spec fn tail_text(nums: Seq<Seq<char>>, ops: Seq<char>, k: int) -> Seq<char>
    decreases ops.len() - k,
{
    if k < 0 || k >= ops.len() {
        Seq::empty()
    } else {
        seq![ops[k]] + nums[k + 1] + tail_text(nums, ops, k + 1)
    }
}

/// The text of numerals joined by operators, with nothing in between.
pub open spec fn flat_text(nums: Seq<Seq<char>>, ops: Seq<char>) -> Seq<char> {
    nums[0] + tail_text(nums, ops, 0)
}

/// The postfix form, in standard infix reading, of the numerals from the
/// `k`-th on, where `op` joins the `k`-th to what comes before it and no
/// operator binds less tightly than the one before it: an operator that binds
/// as tightly as `op` folds left to right, and a tighter one takes the rest as
/// the right operand of `op`.
pub open spec fn climb_terms(nums: Seq<Seq<char>>, ops: Seq<char>, k: int, op: char) -> Seq<Symbol>
    decreases ops.len() - k,
{
    if k < 0 || k >= ops.len() {
        seq![Symbol::Number(nums[k]), Symbol::Operator(op)]
    } else if precedence(ops[k])->0 > precedence(op)->0 {
        seq![Symbol::Number(nums[k])] + climb_terms(nums, ops, k + 1, ops[k]) + seq![Symbol::Operator(op)]
    } else {
        seq![Symbol::Number(nums[k]), Symbol::Operator(op)] + climb_terms(nums, ops, k + 1, ops[k])
    }
}

/// Numerals joined by operators, each binding at least as tightly as the one
/// before it.
pub open spec fn is_rising_chain(nums: Seq<Seq<char>>, ops: Seq<char>) -> bool {
    &&& nums.len() == ops.len() + 1
    &&& forall|i: int| 0 <= i < nums.len() ==> is_numeral(#[trigger] nums[i])
    &&& forall|i: int| 0 <= i < ops.len() ==> precedence(#[trigger] ops[i]) is Some
    &&& forall|i: int, j: int| 0 <= i < j < ops.len() ==> precedence(#[trigger] ops[i])->0 <= precedence(#[trigger] ops[j])->0
}

proof fn lemma_read_numeral(s: Seq<char>, p: int, n: Seq<char>, first: Seq<Symbol>, op: char, floor: int, i: int)
    requires
        0 <= p,
        1 <= i <= n.len(),
        p + n.len() <= s.len(),
        s.subrange(p, p + n.len()) == n,
        is_numeral(n),
    ensures
        frame(s, p + i, first, op, Pending::Digits(n.take(i)), floor) == frame(s, p + n.len(), first, op, Pending::Digits(n), floor),
    decreases n.len() - i,
{
    if i < n.len() {
        let c = s[p + i];
        assert(c == s.subrange(p, p + n.len())[i]);
        assert(is_digit(n[i]) || n[i] == '.');
        assert(n.take(i).push(c) =~= n.take(i + 1));
        lemma_read_numeral(s, p, n, first, op, floor, i + 1);
    } else {
        assert(n.take(i) =~= n);
    }
}

proof fn lemma_climb_from(s: Seq<char>, nums: Seq<Seq<char>>, ops: Seq<char>, k: int, p: int, first: Seq<Symbol>, op: char, floor: int)
    requires
        is_rising_chain(nums, ops),
        0 <= k <= ops.len(),
        0 <= p <= s.len(),
        s.skip(p) == nums[k] + tail_text(nums, ops, k),
        precedence(op) is Some,
        0 <= floor < precedence(op)->0,
        k < ops.len() ==> precedence(op)->0 <= precedence(ops[k])->0,
    ensures
        frame(s, p, first, op, Pending::Empty, floor) == Some((first + climb_terms(nums, ops, k, op), s.len() as int)),
    decreases ops.len() - k,
{
    let n = nums[k];
    assert(is_numeral(n));
    assert(n.len() > 0) by {
        let j = choose|j: int| 0 <= j < n.len() && is_digit(#[trigger] n[j]);
    }
    assert(s.skip(p).len() == n.len() + tail_text(nums, ops, k).len());
    assert(p + n.len() <= s.len());
    assert(s.subrange(p, p + n.len()) =~= n) by {
        assert forall|j: int| 0 <= j < n.len() implies s.subrange(p, p + n.len())[j] == n[j] by {
            assert(s.skip(p)[j] == n[j]);
        }
    }
    assert(s[p] == n[0]) by {
        assert(s.skip(p)[0] == n[0]);
    }
    assert(is_digit(n[0]) || n[0] == '.');
    assert(n.take(1) =~= seq![n[0]]);
    lemma_read_numeral(s, p, n, first, op, floor, 1);
    let e = p + n.len();
    assert(operand(Pending::Digits(n)) == Some(seq![Symbol::Number(n)]));
    if k == ops.len() {
        assert(tail_text(nums, ops, k) =~= Seq::<char>::empty());
        assert(e == s.len());
        assert(first + seq![Symbol::Number(n)] + seq![Symbol::Operator(op)] =~= first + climb_terms(nums, ops, k, op));
    } else {
        let o = ops[k];
        let rest = nums[k + 1] + tail_text(nums, ops, k + 1);
        assert(tail_text(nums, ops, k) == seq![o] + nums[k + 1] + tail_text(nums, ops, k + 1));
        assert(s.skip(p) =~= n + seq![o] + rest);
        assert(s[e] == o) by {
            assert(s.skip(p)[n.len() as int] == o);
        }
        assert(s.skip(e + 1) =~= rest) by {
            assert(s.skip(e + 1).len() == rest.len());
            assert forall|j: int| 0 <= j < rest.len() implies s.skip(e + 1)[j] == rest[j] by {
                assert(s.skip(p)[n.len() + 1 + j] == rest[j]);
            }
        }
        assert(precedence(o) is Some);
        assert(precedence(o)->0 > floor);
        if k + 1 < ops.len() {
            assert(precedence(ops[k])->0 <= precedence(ops[k + 1])->0);
        }
        if precedence(o)->0 > precedence(op)->0 {
            lemma_climb_from(s, nums, ops, k + 1, e + 1, seq![Symbol::Number(n)], o, precedence(op)->0);
            let sub = seq![Symbol::Number(n)] + climb_terms(nums, ops, k + 1, o);
            assert(fold_operand(first, Pending::Value(sub), op) == Some(first + sub + seq![Symbol::Operator(op)]));
            assert(frame(s, s.len() as int, first, op, Pending::Value(sub), floor)
                == Some((first + sub + seq![Symbol::Operator(op)], s.len() as int)));
            assert(e < s.len());
            assert(frame(s, e, first, op, Pending::Digits(n), floor)
                == frame(s, s.len() as int, first, op, Pending::Value(sub), floor));
            assert(first + (seq![Symbol::Number(n)] + climb_terms(nums, ops, k + 1, o)) + seq![Symbol::Operator(op)]
                =~= first + climb_terms(nums, ops, k, op));
        } else {
            let next = first + seq![Symbol::Number(n)] + seq![Symbol::Operator(op)];
            lemma_climb_from(s, nums, ops, k + 1, e + 1, next, o, floor);
            assert(next + climb_terms(nums, ops, k + 1, o) =~= first + climb_terms(nums, ops, k, op));
        }
    }
}

/// Numerals joined by operators, each binding at least as tightly as the one
/// before it, read as standard infix notation reads them: operators that bind
/// equally apply left to right, and a tighter one applies first. The reading
/// starts from zero, to which the whole is added.
pub proof fn lemma_rising_precedence_reads_as_infix(nums: Seq<Seq<char>>, ops: Seq<char>)
    requires
        is_rising_chain(nums, ops),
    ensures
        postfix_of(flat_text(nums, ops)) == Some(zero() + climb_terms(nums, ops, 0, '+')),
{
    let s = flat_text(nums, ops);
    assert(s.skip(0) =~= s);
    lemma_climb_from(s, nums, ops, 0, 0, zero(), '+', 0);
}

} // verus!
