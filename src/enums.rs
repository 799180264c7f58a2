use vstd::prelude::*;

verus! {

/// Whether two pieces of text hold the same characters.
pub fn same_text(a: &str, b: &str) -> (r: bool)
    ensures
        r == (a@ == b@),
{
    a.to_owned() == b.to_owned()
}

/// The life-cycle state of a game: it moves from `Active` to `Ended` once.
#[derive(Debug, Clone, Copy, PartialEq, Eq, Structural)]
pub enum GameState {
    Active,
    Ended,
}

/// The stored text of each game state.
pub open spec fn game_state_text(s: GameState) -> Seq<char> {
    match s {
        GameState::Active => "active"@,
        GameState::Ended => "ended"@,
    }
}

impl GameState {
    pub fn as_str(&self) -> (r: &'static str)
        ensures
            r@ == game_state_text(*self),
    {
        match self {
            GameState::Active => "active",
            GameState::Ended => "ended",
        }
    }

    /// The state whose stored text is `s`, if there is one.
    pub fn from_text(s: &str) -> (r: Option<GameState>)
        ensures
            forall|g: GameState| r == Some(g) <==> game_state_text(g) == s@,
    {
        proof {
            reveal_strlit("active");
            reveal_strlit("ended");
            assert("active"@.len() == 6);
            assert("ended"@.len() == 5);
        }
        if same_text(s, "active") {
            Some(GameState::Active)
        } else if same_text(s, "ended") {
            Some(GameState::Ended)
        } else {
            None
        }
    }
}

/// Publication status of a catalog word.
#[derive(Debug, Clone, Copy, PartialEq, Eq, Structural)]
pub enum WordStatus {
    Active,
    NotActive,
    Draft,
}

pub open spec fn word_status_text(s: WordStatus) -> Seq<char> {
    match s {
        WordStatus::Active => "active"@,
        WordStatus::NotActive => "not_active"@,
        WordStatus::Draft => "draft"@,
    }
}

impl WordStatus {
    pub fn as_str(&self) -> (r: &'static str)
        ensures
            r@ == word_status_text(*self),
    {
        match self {
            WordStatus::Active => "active",
            WordStatus::NotActive => "not_active",
            WordStatus::Draft => "draft",
        }
    }

    /// The status whose stored text is `s`, if there is one.
    pub fn from_text(s: &str) -> (r: Option<WordStatus>)
        ensures
            forall|w: WordStatus| r == Some(w) <==> word_status_text(w) == s@,
    {
        proof {
            reveal_strlit("active");
            reveal_strlit("not_active");
            reveal_strlit("draft");
            assert("active"@.len() == 6);
            assert("not_active"@.len() == 10);
            assert("draft"@.len() == 5);
        }
        if same_text(s, "active") {
            Some(WordStatus::Active)
        } else if same_text(s, "not_active") {
            Some(WordStatus::NotActive)
        } else if same_text(s, "draft") {
            Some(WordStatus::Draft)
        } else {
            None
        }
    }
}

/// Whether the definitions of a catalog word were imported.
#[derive(Debug, Clone, Copy, PartialEq, Eq, Structural)]
pub enum WordLoadStatus {
    NotLoaded,
    Loaded,
    LoadedWithFail,
}

pub open spec fn word_load_status_text(s: WordLoadStatus) -> Seq<char> {
    match s {
        WordLoadStatus::NotLoaded => "not_loaded"@,
        WordLoadStatus::Loaded => "loaded"@,
        WordLoadStatus::LoadedWithFail => "loaded_with_fail"@,
    }
}

impl WordLoadStatus {
    pub fn as_str(&self) -> (r: &'static str)
        ensures
            r@ == word_load_status_text(*self),
    {
        match self {
            WordLoadStatus::NotLoaded => "not_loaded",
            WordLoadStatus::Loaded => "loaded",
            WordLoadStatus::LoadedWithFail => "loaded_with_fail",
        }
    }

    /// The load status whose stored text is `s`, if there is one.
    pub fn from_text(s: &str) -> (r: Option<WordLoadStatus>)
        ensures
            forall|w: WordLoadStatus| r == Some(w) <==> word_load_status_text(w) == s@,
    {
        proof {
            reveal_strlit("not_loaded");
            reveal_strlit("loaded");
            reveal_strlit("loaded_with_fail");
            assert("not_loaded"@.len() == 10);
            assert("loaded"@.len() == 6);
            assert("loaded_with_fail"@.len() == 16);
        }
        if same_text(s, "not_loaded") {
            Some(WordLoadStatus::NotLoaded)
        } else if same_text(s, "loaded") {
            Some(WordLoadStatus::Loaded)
        } else if same_text(s, "loaded_with_fail") {
            Some(WordLoadStatus::LoadedWithFail)
        } else {
            None
        }
    }
}

/// Publication status of a word definition.
#[derive(Debug, Clone, Copy, PartialEq, Eq, Structural)]
pub enum WordDefinitionStatus {
    Active,
    NotActive,
}

pub open spec fn word_definition_status_text(s: WordDefinitionStatus) -> Seq<char> {
    match s {
        WordDefinitionStatus::Active => "active"@,
        WordDefinitionStatus::NotActive => "not_active"@,
    }
}

impl WordDefinitionStatus {
    pub fn as_str(&self) -> (r: &'static str)
        ensures
            r@ == word_definition_status_text(*self),
    {
        match self {
            WordDefinitionStatus::Active => "active",
            WordDefinitionStatus::NotActive => "not_active",
        }
    }

    /// The definition status whose stored text is `s`, if there is one.
    pub fn from_text(s: &str) -> (r: Option<WordDefinitionStatus>)
        ensures
            forall|w: WordDefinitionStatus| r == Some(w) <==> word_definition_status_text(w) == s@,
    {
        proof {
            reveal_strlit("active");
            reveal_strlit("not_active");
            assert("active"@.len() == 6);
            assert("not_active"@.len() == 10);
        }
        if same_text(s, "active") {
            Some(WordDefinitionStatus::Active)
        } else if same_text(s, "not_active") {
            Some(WordDefinitionStatus::NotActive)
        } else {
            None
        }
    }
}

} // verus!
