//! The death record sent to the server and the plain value tree its free-form
//! fields are carried in.
use vstd::prelude::*;

verus! {

/// A JSON-shaped value: what a Lua value of the saved-variables file becomes.
#[derive(Debug)]
pub enum Norm {
    Null,
    Bool(bool),
    Int(i64),
    /// A non-integral number, as the bits of an IEEE-754 double.
    Float(u64),
    Str(String),
    Array(Vec<Norm>),
    /// Members in order of first appearance, each key once.
    Object(Vec<(String, Norm)>),
}

/// The latest death of a character, ready for upload.
#[derive(Debug)]
pub struct DeathRecord {
    /// Seconds since the epoch, as the addon reported it.
    pub at: i64,
    pub player: String,
    pub realm: String,
    pub class: Option<String>,
    pub level: Option<i64>,
    pub location: Norm,
    pub killer: Norm,
    pub bags: Norm,
    pub equipped: Norm,
    /// An object with the members `instanceID`, `instanceName`,
    /// `instanceDifficulty` and `mapDifficultyID`.
    pub instance: Norm,
    pub money_copper: Option<i64>,
    pub money_gold: Option<i64>,
    pub money_silver: Option<i64>,
    pub money_copper_only: Option<i64>,
}

} // verus!
