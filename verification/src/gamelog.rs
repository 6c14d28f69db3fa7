//! The game log: what happened, newest last.

use vstd::prelude::*;

verus! {

/// One thing worth telling the player. Names are those that the entities
/// had at the time, if they had one.
#[derive(Clone, Debug, PartialEq, Eq)]
pub enum LogEntry {
    Welcome,
    PlayerDied,
    Died { name: String },
    PickedUp { item: Option<String> },
    Dropped { item: Option<String> },
    Equipped { item: Option<String> },
    Unequipped { item: Option<String> },
    Healed { item: Option<String>, amount: i32 },
    Damaged { item: Option<String>, target: Option<String>, amount: i32 },
    Confused { item: Option<String>, target: Option<String> },
    Descended { depth: i32, healed: i32 },
    NothingToPickUp,
}

/// The log of the game.
pub struct GameLog {
    pub entries: Vec<LogEntry>,
}

impl GameLog {
    /// An empty log.
    pub fn new() -> (log: GameLog)
        ensures
            log.entries@.len() == 0,
    {
        GameLog { entries: Vec::new() }
    }
}

} // verus!
