use vstd::prelude::*;

verus! {

/// A request to start a game with the given teams, in turn order.
#[derive(Debug, Clone)]
pub struct CreateGameRequest {
    pub penalty: bool,
    pub round_time: i32,
    pub team_ids: Vec<i32>,
    pub word_count: i32,
}

/// One submitted outcome: whether the word was guessed.
#[derive(Debug, Clone, Copy, PartialEq, Eq, Structural)]
pub struct WordResultsDTO {
    pub result: bool,
    pub word_id: i32,
}

/// A request to complete the current round of a game.
#[derive(Debug, Clone)]
pub struct CompleteRoundRequest {
    pub id: i32,
    pub token: String,
    pub word_results: Vec<WordResultsDTO>,
}

/// A request to import the definitions of a catalog word.
#[derive(Debug, Clone, Copy, PartialEq, Eq, Structural)]
pub struct LoadDefinitionRequest {
    pub id: i32,
    pub timestamp: i64,
}

/// Administrator credentials.
#[derive(Debug, Clone)]
pub struct LoginRequest {
    pub email: String,
    pub password: String,
}

} // verus!
