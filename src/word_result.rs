use vstd::prelude::*;

verus! {

/// One guessed word of a team: whether it was guessed, and its place in the team's log.
#[derive(Debug, Clone, Copy, PartialEq, Eq, Structural)]
pub struct WordResult {
    pub id: i32,
    pub result: bool,
    pub order: i32,
    pub word_id: i32,
    pub team_result_id: i32,
}

pub fn new(id: i32, result: bool, order: i32, word_id: i32, team_result_id: i32) -> (r: WordResult)
    ensures
        r == (WordResult { id, result, order, word_id, team_result_id }),
{
    WordResult { id, result, word_id, team_result_id, order }
}

} // verus!
