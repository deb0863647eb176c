//! Random flavour messages built from templates.

use vstd::prelude::*;
use crate::records::RandomMessageTemplates;
use crate::text::{chars_of, replace_all, replace_all_exec, string_from_chars};

verus! {

/// Relies on rand's `Rng::gen_range` over `0..n` with the thread-local
/// generator: an index below `n`.
#[verifier::external_body]
fn random_below(n: usize) -> (r: usize)
    requires
        n > 0,
    ensures
        r < n,
{
    rand::Rng::gen_range(&mut rand::thread_rng(), 0..n)
}

/// Relies on `rand::random::<bool>`: either value.
#[verifier::external_body]
fn coin_flip() -> bool {
    rand::random()
}

/// `template` with `%a` replaced by `first` and then `%b` by `second`.
pub open spec fn filled_pair(template: Seq<char>, first: Seq<char>, second: Seq<char>) -> Seq<char> {
    replace_all(replace_all(template, "%a"@, first), "%b"@, second)
}

/// `template` with `%x` replaced by `word`.
pub open spec fn filled_single(template: Seq<char>, word: Seq<char>) -> Seq<char> {
    replace_all(template, "%x"@, word)
}

pub fn fill_template(template: &str, placeholder: &str, word: &str) -> (r: String)
    requires
        placeholder@.len() > 0,
    ensures
        r@ == replace_all(template@, placeholder@, word@),
{
    string_from_chars(replace_all_exec(&chars_of(template), &chars_of(placeholder), &chars_of(word)).as_slice())
}

/// A random message: either a two-word template with two random words, or a
/// one-word template with one. `None` where the lists it would draw from are
/// empty.
pub fn get_random_message(templates: &RandomMessageTemplates) -> (r: Option<String>)
    ensures
        r matches Some(m) ==> {
            ||| exists|t: int, i: int, j: int|
                0 <= t < templates.super_templates@.len() && 0 <= i < templates.words@.len() && 0 <= j < templates.words@.len()
                && m@ == filled_pair(#[trigger] templates.super_templates@[t]@, #[trigger] templates.words@[i]@, #[trigger] templates.words@[j]@)
            ||| exists|t: int, i: int|
                0 <= t < templates.templates@.len() && 0 <= i < templates.words@.len()
                && m@ == filled_single(#[trigger] templates.templates@[t]@, #[trigger] templates.words@[i]@)
        },
        templates.words@.len() > 0 && templates.super_templates@.len() > 0 && templates.templates@.len() > 0 ==> r is Some,
{
    proof {
        reveal_strlit("%a");
        reveal_strlit("%b");
        reveal_strlit("%x");
    }
    if templates.words.len() == 0 {
        return None;
    }
    let use_pair = coin_flip();
    if use_pair && templates.super_templates.len() > 0 {
        let t = random_below(templates.super_templates.len());
        let i = random_below(templates.words.len());
        let j = random_below(templates.words.len());
        let first = fill_template(templates.super_templates[t].as_str(), "%a", templates.words[i].as_str());
        let m = fill_template(first.as_str(), "%b", templates.words[j].as_str());
        assert(m@ == filled_pair(templates.super_templates@[t as int]@, templates.words@[i as int]@, templates.words@[j as int]@));
        Some(m)
    } else if templates.templates.len() > 0 {
        let t = random_below(templates.templates.len());
        let i = random_below(templates.words.len());
        let m = fill_template(templates.templates[t].as_str(), "%x", templates.words[i].as_str());
        assert(m@ == filled_single(templates.templates@[t as int]@, templates.words@[i as int]@));
        Some(m)
    } else if templates.super_templates.len() > 0 {
        let t = random_below(templates.super_templates.len());
        let i = random_below(templates.words.len());
        let j = random_below(templates.words.len());
        let first = fill_template(templates.super_templates[t].as_str(), "%a", templates.words[i].as_str());
        let m = fill_template(first.as_str(), "%b", templates.words[j].as_str());
        assert(m@ == filled_pair(templates.super_templates@[t as int]@, templates.words@[i as int]@, templates.words@[j as int]@));
        Some(m)
    } else {
        None
    }
}

} // verus!
