//! Hiding configured phrases in message text.

use vstd::prelude::*;
use crate::html::texts_view;
use crate::text::{chars_of, copy_range, find_first, first_occurrence, replace_all, replace_all_exec, string_from_chars};

verus! {

/// The lower-case form of `s`.
pub uninterp spec fn lower_of(s: Seq<char>) -> Seq<char>;

/// Relies on `str::to_lowercase`: the result depends on the characters alone.
#[verifier::external_body]
fn lowercase(s: &str) -> (r: String)
    ensures
        r@ == lower_of(s@),
{
    s.to_lowercase()
}

/// `text` with the first occurrence of `phrase`, found without regard to
/// case, replaced by `with` wherever it occurs as written there, when it
/// stands as a word of its own (a space or the text's end on either side).
/// A phrase is passed over where it is empty, or where lower-casing changes
/// the text's length so that positions no longer line up.
pub open spec fn censor_once(text: Seq<char>, phrase: Seq<char>, with: Seq<char>) -> Seq<char> {
    let lt = lower_of(text);
    let n = phrase.len() as int;
    match first_occurrence(lt, lower_of(phrase)) {
        Some(i) => if n > 0 && lt.len() == text.len() && i + n <= text.len()
            && (i == 0 || text[i - 1] == ' ') && (i + n == text.len() || text[i + n] == ' ') {
            replace_all(text, text.subrange(i, i + n), with)
        } else {
            text
        },
        None => text,
    }
}

/// `text` with each of `phrases` censored in turn.
pub open spec fn censored(text: Seq<char>, phrases: Seq<Seq<char>>, with: Seq<char>) -> Seq<char>
    decreases phrases.len(),
{
    if phrases.len() == 0 {
        text
    } else {
        censor_once(censored(text, phrases.drop_last(), with), phrases.last(), with)
    }
}

fn censor_phrase(text: &Vec<char>, phrase: &str, with: &Vec<char>) -> (r: Vec<char>)
    ensures
        r@ == censor_once(text@, phrase@, with@),
{
    let p = chars_of(phrase);
    let n = p.len();
    let lt = chars_of(lowercase(string_from_chars(text.as_slice()).as_str()).as_str());
    let lp = chars_of(lowercase(phrase).as_str());
    let i = match find_first(&lt, &lp) {
        Some(i) => i,
        None => return copy_range(text, 0, text.len()),
    };
    assert(text@.subrange(0, text.len() as int) =~= text@);
    if n == 0 || lt.len() != text.len() || i > text.len() || n > text.len() - i {
        return copy_range(text, 0, text.len());
    }
    let before_ok = i == 0 || text[i - 1] == ' ';
    let after_ok = i + n == text.len() || text[i + n] == ' ';
    if !(before_ok && after_ok) {
        return copy_range(text, 0, text.len());
    }
    let appears = copy_range(text, i, i + n);
    replace_all_exec(text, &appears, with)
}

/// `text` with each of `censored_phrases` censored in turn; see `censor_once`.
pub fn censor_text(text: &str, censored_phrases: &[String], replace_with: &str) -> (r: String)
    ensures
        r@ == censored(text@, texts_view(censored_phrases@), replace_with@),
{
    let with = chars_of(replace_with);
    let mut current = chars_of(text);
    let mut k: usize = 0;
    while k < censored_phrases.len()
        invariant
            k <= censored_phrases.len(),
            with@ == replace_with@,
            current@ == censored(text@, texts_view(censored_phrases@).take(k as int), replace_with@),
        decreases censored_phrases.len() - k,
    {
        assert(texts_view(censored_phrases@).take(k + 1).drop_last() =~= texts_view(censored_phrases@).take(k as int));
        assert(texts_view(censored_phrases@)[k as int] == censored_phrases@[k as int]@);
        current = censor_phrase(&current, censored_phrases[k].as_str(), &with);
        k = k + 1;
    }
    assert(texts_view(censored_phrases@).take(censored_phrases.len() as int) =~= texts_view(censored_phrases@));
    string_from_chars(current.as_slice())
}

} // verus!
