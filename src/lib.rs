//! Normalises tabletop-gaming chat transcripts from three platforms into
//! posts, and reads dice expressions.
//!
//! - `expression`: the dice/arithmetic grammar, read into postfix form.
//! - `dice`: rolling dice and reattaching rolled values to a formula.
//! - `foundry`, `roll20`, `fantasy_grounds`: the transcript readers, and
//!   `chat_log` to pick one by file name.
//! - `simulation`: replaying recorded dice to judge luck.
//! - `records`, `messages`, `censor`: configuration records, flavour
//!   messages and hiding configured phrases.
//! - `text`, `number_text`, `html`, `clock`: text, number syntax, HTML queries
//!   and calendar text.

pub mod text;
pub mod number_text;
pub mod html;
pub mod clock;
pub mod expression;
pub mod dice;
pub mod post;
pub mod records;
pub mod foundry;
pub mod fantasy_grounds;
pub mod roll20;
pub mod chat_log;
pub mod simulation;
pub mod messages;
pub mod censor;
