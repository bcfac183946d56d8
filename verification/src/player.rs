use vstd::prelude::*;

verus! {

/// One of the two sides of the game.
#[derive(PartialEq, Eq, Copy, Clone, Debug, Structural)]
pub enum Player {
    White,
    Black,
}

impl Player {
    /// The opposing side.
    pub fn enemy(self) -> (r: Self)
        ensures
            r == self.enemy_spec(),
    {
        match self {
            Self::White => Self::Black,
            Self::Black => Self::White,
        }
    }

    pub open spec fn enemy_spec(self) -> Self {
        match self {
            Self::White => Self::Black,
            Self::Black => Self::White,
        }
    }
}

/// Swapping sides twice returns to the original side.
pub proof fn lemma_enemy_involution(p: Player)
    ensures
        p.enemy_spec().enemy_spec() == p,
{
}

} // verus!
