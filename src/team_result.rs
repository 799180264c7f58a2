use vstd::prelude::*;

use crate::error::VortoResult;

verus! {

/// A team's participation in one game; `order` is its fixed place in the turn rotation.
#[derive(Debug, Clone, Copy, PartialEq, Eq, Structural)]
pub struct TeamResult {
    pub id: i32,
    pub team_id: i32,
    pub game_id: i32,
    pub order: i32,
}

pub fn new(id: i32, team_id: i32, game_id: i32, order: i32) -> (r: VortoResult<TeamResult>)
    ensures
        r == VortoResult::Success(TeamResult { id, team_id, game_id, order }),
{
    VortoResult::Success(TeamResult { id, team_id, game_id, order })
}

} // verus!
