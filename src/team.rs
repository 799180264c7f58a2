use vstd::prelude::*;

verus! {

/// A team that can take part in games.
#[derive(Debug, Clone)]
pub struct Team {
    pub id: i32,
    pub name: String,
}

} // verus!
