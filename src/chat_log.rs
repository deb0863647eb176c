//! The three transcript readers behind one interface, picked once by the
//! transcript's file name.

use vstd::prelude::*;
use crate::fantasy_grounds::{fg_next, FantasyGroundsChatLog};
use crate::foundry::{foundry_next, FoundryChatLog};
use crate::post::Post;
use crate::roll20::{roll20_next, Roll20ChatLog};
use crate::text::{chars_of, ends_with, is_prefix, is_suffix, starts_with};

verus! {

/// The platform a transcript comes from.
#[derive(Clone, Copy, Debug, PartialEq, Eq, Structural)]
pub enum LogFormat {
    Foundry,
    Roll20,
    FantasyGrounds,
}

/// `fnd_*.db` is a Foundry transcript, `r20_*.html` a Roll20 one and
/// `fg_*.html` a Fantasy Grounds one.
pub open spec fn format_of(name: Seq<char>) -> Option<LogFormat> {
    if is_prefix("fnd_"@, name) && is_suffix(".db"@, name) {
        Some(LogFormat::Foundry)
    } else if is_prefix("r20_"@, name) && is_suffix(".html"@, name) {
        Some(LogFormat::Roll20)
    } else if is_prefix("fg_"@, name) && is_suffix(".html"@, name) {
        Some(LogFormat::FantasyGrounds)
    } else {
        None
    }
}

/// The platform of the transcript with file name `filename`; see `format_of`.
pub fn log_format(filename: &str) -> (r: Option<LogFormat>)
    ensures
        r == format_of(filename@),
{
    let name = chars_of(filename);
    if starts_with(&name, &chars_of("fnd_")) && ends_with(&name, &chars_of(".db")) {
        Some(LogFormat::Foundry)
    } else if starts_with(&name, &chars_of("r20_")) && ends_with(&name, &chars_of(".html")) {
        Some(LogFormat::Roll20)
    } else if starts_with(&name, &chars_of("fg_")) && ends_with(&name, &chars_of(".html")) {
        Some(LogFormat::FantasyGrounds)
    } else {
        None
    }
}

/// A transcript reader of any of the three platforms.
pub enum ChatLog {
    Foundry(FoundryChatLog),
    Roll20(Roll20ChatLog),
    FantasyGrounds(FantasyGroundsChatLog),
}

impl ChatLog {
    /// The reader has not read past its input.
    pub open spec fn wf(&self) -> bool {
        match self {
            ChatLog::Foundry(l) => l.next <= l.records.len(),
            ChatLog::Roll20(l) => l.next_line <= l.lines.len(),
            ChatLog::FantasyGrounds(l) => l.next_line <= l.lines.len(),
        }
    }

    /// The next post of the transcript, as the reader of its platform gives it.
    pub fn next_post(&mut self) -> (r: Option<Post>)
        requires
            old(self).wf(),
        ensures
            final(self).wf(),
            match (*old(self), *final(self)) {
                (ChatLog::Foundry(a), ChatLog::Foundry(b)) => foundry_next(a, b, r),
                (ChatLog::Roll20(a), ChatLog::Roll20(b)) => roll20_next(a, b, r),
                (ChatLog::FantasyGrounds(a), ChatLog::FantasyGrounds(b)) => fg_next(a, b, r),
                _ => false,
            },
    {
        match self {
            ChatLog::Foundry(l) => l.next_post(),
            ChatLog::Roll20(l) => l.next_post(),
            ChatLog::FantasyGrounds(l) => l.next_post(),
        }
    }
}

} // verus!
