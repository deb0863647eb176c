//! The normalised transcript entry.

use vstd::prelude::*;
use crate::dice::{decompose, decomposition, RollSingle};

verus! {

/// One evaluated expression: its text, its total as written by the platform,
/// and its dice in the order in which they appear in the text.
#[derive(Debug)]
pub struct Roll {
    pub formula: String,
    pub outcome: String,
    pub single_rolls: Vec<RollSingle>,
}

/// One transcript entry, a message or a set of rolls. `timestamp` counts
/// milliseconds since the Unix epoch, in UTC.
#[derive(Debug)]
pub struct Post {
    pub id: String,
    pub sender_name: String,
    pub timestamp: i64,
    pub content_raw: String,
    pub is_message: bool,
    pub rolls: Vec<Roll>,
}

/// The roll of `expr` with its dice's values `outcomes` reattached in order
/// (see `decomposition`) and its total as written.
pub fn get_roll_from_expression_and_outcomes(expr: &str, outcomes: Vec<i64>, expr_outcome: &str) -> (r: Option<Roll>)
    ensures
        r is Some <==> decomposition(expr@, outcomes@) is Some,
        r matches Some(roll) ==> roll.formula@ == expr@ && roll.outcome@ == expr_outcome@
            && roll.single_rolls@ == decomposition(expr@, outcomes@)->0,
{
    match decompose(expr, &outcomes) {
        Some(single_rolls) => Some(Roll { formula: expr.to_string(), outcome: expr_outcome.to_string(), single_rolls }),
        None => None,
    }
}

} // verus!
