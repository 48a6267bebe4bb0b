use vstd::prelude::*;

verus! {

/// Score keeping for one play session.
pub struct GameState {
    pub hp: i32,
    pub score: i32,
}

impl GameState {
    /// A fresh session: no hit points recorded and no score yet.
    pub fn new() -> (r: GameState)
        ensures
            r.hp == 0,
            r.score == 0,
    {
        GameState { hp: 0, score: 0 }
    }
}

} // verus!
