//! The records that configuration and storage deal in.

use vstd::prelude::*;
use std::collections::HashMap;
use crate::text::{chars_of, split_chars, split_on, string_from_chars, views_of, lemma_split_on_nonempty};

verus! {

/// A sender name mapped to a player.
#[derive(Clone, Copy, Debug, PartialEq, Eq, Structural)]
pub struct Alias {
    pub sender_id: i32,
    pub player_id: i32,
}

/// A campaign, its game master and the offset of its transcript's clock.
#[derive(Debug)]
pub struct Campaign {
    pub campaign_name: String,
    pub dm_name: String,
    pub timezone_offset: i32,
}

/// Text that must not be shown for a player.
#[derive(Debug)]
pub struct Censor {
    pub avoid_text: String,
    pub player_name: String,
}

#[derive(Debug)]
pub struct Player {
    pub player_name: String,
}

/// A pronoun set: subject, object, possessive determiner, possessive pronoun.
#[derive(Debug)]
pub struct Pronouns {
    pub subj: String,
    pub obj: String,
    pub poss_pres: String,
    pub poss_past: String,
}

/// A pronoun set mapped to a player.
#[derive(Clone, Copy, Debug, PartialEq, Eq, Structural)]
pub struct PronounsMap {
    pub pronouns_id: i32,
    pub player_id: i32,
}

/// A name that posts in a campaign's transcript.
#[derive(Debug)]
pub struct Sender {
    pub sender_name: String,
    pub campaign_id: i32,
    pub is_censored: bool,
}

#[derive(Debug)]
pub struct PlayerConfig {
    pub pronouns: Vec<String>,
    pub deadnames: Vec<String>,
}

#[derive(Debug)]
pub struct AliasConfig {
    pub player: String,
    pub senders: Vec<String>,
}

#[derive(Debug)]
pub struct CampaignConfig {
    pub log: String,
    pub dungeon_master: String,
    pub timezone_offset: i32,
    pub aliases: Vec<AliasConfig>,
}

#[derive(Debug)]
pub struct Config {
    pub players: HashMap<String, PlayerConfig>,
    pub replace_all_deadnames_with: String,
    pub campaigns: HashMap<String, CampaignConfig>,
}

#[derive(Debug)]
pub struct RandomMessageTemplates {
    pub super_templates: Vec<String>,
    pub templates: Vec<String>,
    pub words: Vec<String>,
}

impl Pronouns {
    /// Reads `subj/obj/poss_pres/poss_past`; pieces after the fourth are
    /// ignored. `None` where there are fewer than four.
    pub fn parse(pronouns_config: &str) -> (r: Option<Pronouns>)
        ensures
            r is Some <==> split_on(pronouns_config@, '/').len() >= 4,
            r matches Some(p) ==> {
                let parts = split_on(pronouns_config@, '/');
                &&& p.subj@ == parts[0]
                &&& p.obj@ == parts[1]
                &&& p.poss_pres@ == parts[2]
                &&& p.poss_past@ == parts[3]
            },
    {
        let s = chars_of(pronouns_config);
        let parts = split_chars(&s, '/');
        proof {
            lemma_split_on_nonempty(s@, '/');
        }
        if parts.len() < 4 {
            return None;
        }
        assert(views_of(parts@)[0] == parts@[0]@);
        assert(views_of(parts@)[1] == parts@[1]@);
        assert(views_of(parts@)[2] == parts@[2]@);
        assert(views_of(parts@)[3] == parts@[3]@);
        Some(Pronouns {
            subj: string_from_chars(parts[0].as_slice()),
            obj: string_from_chars(parts[1].as_slice()),
            poss_pres: string_from_chars(parts[2].as_slice()),
            poss_past: string_from_chars(parts[3].as_slice()),
        })
    }
}

} // verus!
