//! Transcripts of one JSON record per line.
//!
//! The records come here decoded; this module decides which of them are posts
//! and what each post holds.

use vstd::prelude::*;
use crate::dice::RollSingle;
use crate::post::{Post, Roll};
use crate::text::{chars_of, same_chars};

verus! {

/// One term of a roll payload: its class, and for a die its face count and
/// the values rolled.
#[derive(Debug)]
pub struct FoundryTerm {
    pub class: String,
    pub faces: Option<i64>,
    pub results: Option<Vec<i64>>,
}

/// A roll payload: the formula, its terms and the reported total as written.
#[derive(Debug)]
pub struct FoundryRoll {
    pub formula: String,
    pub terms: Vec<FoundryTerm>,
    pub total: String,
}

/// One decoded record. `timestamp` counts milliseconds since the Unix epoch.
#[derive(Debug)]
pub struct FoundryRecord {
    pub id: String,
    pub type_number: u8,
    pub speaker_alias: String,
    pub timestamp: i64,
    pub content: String,
    pub whisper: Vec<String>,
    pub rolls: Vec<FoundryRoll>,
}

pub open spec fn is_die_class(class: Seq<char>) -> bool {
    class == seq!['D', 'i', 'e']
}

/// The dice of one die term.
pub open spec fn term_dice(t: FoundryTerm) -> Seq<RollSingle> {
    t.results->0@.map_values(|o: i64| RollSingle { faces: t.faces->0, outcome: o })
}

/// A die term must carry its face count and its results.
pub open spec fn term_is_complete(t: FoundryTerm) -> bool {
    is_die_class(t.class@) ==> t.faces is Some && t.results is Some
}

/// The dice of the die terms among `terms`, in order; other terms give none.
pub open spec fn dice_of_terms(terms: Seq<FoundryTerm>) -> Seq<RollSingle>
    decreases terms.len(),
{
    if terms.len() == 0 {
        Seq::empty()
    } else {
        let t = terms.last();
        dice_of_terms(terms.drop_last()) + if is_die_class(t.class@) {
            term_dice(t)
        } else {
            Seq::empty()
        }
    }
}

pub open spec fn roll_is_complete(raw: FoundryRoll) -> bool {
    forall|i: int| 0 <= i < raw.terms@.len() ==> term_is_complete(#[trigger] raw.terms@[i])
}

pub open spec fn roll_matches(r: Roll, raw: FoundryRoll) -> bool {
    &&& r.formula@ == raw.formula@
    &&& r.outcome@ == raw.total@
    &&& r.single_rolls@ == dice_of_terms(raw.terms@)
}

/// Item cards (type 0) and whispered records are not posts; nor is a record
/// with a die term that lacks its faces or results.
pub open spec fn yields_post(rec: FoundryRecord) -> bool {
    &&& rec.type_number != 0
    &&& rec.whisper@.len() == 0
    &&& forall|i: int| 0 <= i < rec.rolls@.len() ==> roll_is_complete(#[trigger] rec.rolls@[i])
}

pub open spec fn post_matches(p: Post, rec: FoundryRecord) -> bool {
    &&& p.id@ == rec.id@
    &&& p.sender_name@ == rec.speaker_alias@
    &&& p.timestamp == rec.timestamp
    &&& p.content_raw@ == rec.content@
    &&& p.is_message == (rec.rolls@.len() == 0)
    &&& p.rolls@.len() == rec.rolls@.len()
    &&& forall|i: int| 0 <= i < p.rolls@.len() ==> roll_matches(#[trigger] p.rolls@[i], rec.rolls@[i])
}

fn is_die(class: &String) -> (r: bool)
    ensures
        r == is_die_class(class@),
{
    proof {
        reveal_strlit("Die");
    }
    let die = chars_of("Die");
    assert(die@ =~= seq!['D', 'i', 'e']);
    same_chars(&chars_of(class.as_str()), &die)
}

/// The dice of a roll payload; `None` where a die term is incomplete.
fn dice_from_terms(terms: &Vec<FoundryTerm>) -> (r: Option<Vec<RollSingle>>)
    ensures
        r is Some <==> forall|i: int| 0 <= i < terms@.len() ==> term_is_complete(#[trigger] terms@[i]),
        r matches Some(v) ==> v@ == dice_of_terms(terms@),
{
    let mut dice: Vec<RollSingle> = Vec::new();
    let mut i: usize = 0;
    while i < terms.len()
        invariant
            i <= terms.len(),
            forall|j: int| 0 <= j < i ==> term_is_complete(#[trigger] terms@[j]),
            dice@ == dice_of_terms(terms@.take(i as int)),
        decreases terms.len() - i,
    {
        let t = &terms[i];
        assert(terms@.take(i + 1).drop_last() =~= terms@.take(i as int));
        if is_die(&t.class) {
            let (faces, results) = match (t.faces, &t.results) {
                (Some(f), Some(rs)) => (f, rs),
                _ => return None,
            };
            let ghost before = dice@;
            let mut k: usize = 0;
            while k < results.len()
                invariant
                    k <= results.len(),
                    dice@ == before + results@.take(k as int).map_values(|o: i64| RollSingle { faces, outcome: o }),
                decreases results.len() - k,
            {
                dice.push(RollSingle { faces, outcome: results[k] });
                assert(results@.take(k + 1) =~= results@.take(k as int).push(results@[k as int]));
                assert(results@.take(k + 1).map_values(|o: i64| RollSingle { faces, outcome: o }) =~= results@.take(k as int).map_values(|o: i64| RollSingle { faces, outcome: o }).push(RollSingle { faces, outcome: results@[k as int] }));
                k = k + 1;
            }
            assert(results@.take(results.len() as int) =~= results@);
        } else {
            assert(dice_of_terms(terms@.take(i + 1)) =~= dice_of_terms(terms@.take(i as int)));
        }
        i = i + 1;
    }
    assert(terms@.take(terms.len() as int) =~= terms@);
    Some(dice)
}

/// A roll from its payload; `None` where a die term is incomplete.
pub fn roll_from_payload(raw: &FoundryRoll) -> (r: Option<Roll>)
    ensures
        r is Some <==> roll_is_complete(*raw),
        r matches Some(roll) ==> roll_matches(roll, *raw),
{
    match dice_from_terms(&raw.terms) {
        Some(single_rolls) => Some(Roll {
            formula: raw.formula.clone(),
            outcome: raw.total.clone(),
            single_rolls,
        }),
        None => None,
    }
}

/// The post that a record stands for: none for item cards, whispers and
/// incomplete roll payloads; a message where it carries no roll.
pub fn post_from_record(rec: &FoundryRecord) -> (r: Option<Post>)
    ensures
        r is Some <==> yields_post(*rec),
        r matches Some(p) ==> post_matches(p, *rec),
{
    if rec.type_number == 0 || rec.whisper.len() > 0 {
        return None;
    }
    let mut rolls: Vec<Roll> = Vec::new();
    let mut i: usize = 0;
    while i < rec.rolls.len()
        invariant
            i <= rec.rolls.len(),
            rolls@.len() == i,
            forall|j: int| 0 <= j < i ==> roll_is_complete(#[trigger] rec.rolls@[j]),
            forall|j: int| 0 <= j < i ==> roll_matches(#[trigger] rolls@[j], rec.rolls@[j]),
        decreases rec.rolls.len() - i,
    {
        match roll_from_payload(&rec.rolls[i]) {
            Some(roll) => rolls.push(roll),
            None => return None,
        }
        i = i + 1;
    }
    Some(Post {
        id: rec.id.clone(),
        sender_name: rec.speaker_alias.clone(),
        timestamp: rec.timestamp,
        content_raw: rec.content.clone(),
        is_message: rec.rolls.len() == 0,
        rolls,
    })
}

/// An item card (type 0), or a record whispered to anyone, never becomes a
/// post; a record without roll payloads that does become one is a message.
pub proof fn lemma_foundry_classification(rec: FoundryRecord, p: Post)
    ensures
        rec.type_number == 0 || rec.whisper@.len() > 0 ==> !yields_post(rec),
        post_matches(p, rec) && rec.rolls@.len() == 0 ==> p.is_message && p.rolls@.len() == 0,
{
}

pub open spec fn yields_at(records: Seq<Option<FoundryRecord>>, k: int) -> bool {
    records[k] matches Some(rec) && yields_post(rec)
}

/// A transcript of decoded lines, `None` for a line that did not decode, read
/// forward once.
pub struct FoundryChatLog {
    pub records: Vec<Option<FoundryRecord>>,
    pub next: usize,
}

/// What one call of `next_post` does: it passes over the lines that yield no
/// post, and gives the post of the first that does, or `None` at the end.
pub open spec fn foundry_next(before: FoundryChatLog, after: FoundryChatLog, r: Option<Post>) -> bool {
    &&& after.records@ == before.records@
    &&& after.next <= after.records.len()
    &&& forall|k: int| before.next <= k < after.next - (if r is Some { 1int } else { 0int })
        ==> !yields_at(before.records@, k)
    &&& (r is None ==> after.next == after.records.len())
    &&& (r matches Some(p) ==> {
        let k = after.next - 1;
        &&& before.next <= k
        &&& post_matches(p, before.records@[k]->0)
        &&& yields_at(before.records@, k)
    })
}

/// A call of `next_post` never gives the post of an item card or of a
/// whispered record: where it gives a post, the record it read is neither.
pub proof fn lemma_next_post_skips_cards_and_whispers(before: FoundryChatLog, after: FoundryChatLog, r: Option<Post>)
    requires
        foundry_next(before, after, r),
        r is Some,
    ensures
        before.records@[after.next - 1] matches Some(rec) && rec.type_number != 0 && rec.whisper@.len() == 0,
        (after.records@[after.next - 1]->0).rolls@.len() == 0 ==> r->0.is_message,
{
}

impl FoundryChatLog {
    pub fn new(records: Vec<Option<FoundryRecord>>) -> (r: FoundryChatLog)
        ensures
            r.records@ == records@,
            r.next == 0,
    {
        FoundryChatLog { records, next: 0 }
    }

    /// The post of the next line that yields one; lines that do not are
    /// passed over. `None` once the transcript is used up.
    pub fn next_post(&mut self) -> (r: Option<Post>)
        requires
            old(self).next <= old(self).records.len(),
        ensures
            foundry_next(*old(self), *final(self), r),
    {
        while self.next < self.records.len()
            invariant
                self.records@ == old(self).records@,
                old(self).next <= self.next <= self.records.len(),
                forall|k: int| old(self).next <= k < self.next ==> !yields_at(old(self).records@, k),
            decreases self.records.len() - self.next,
        {
            let k = self.next;
            self.next = self.next + 1;
            if let Some(rec) = &self.records[k] {
                if let Some(p) = post_from_record(rec) {
                    return Some(p);
                }
            }
        }
        None
    }
}

} // verus!
