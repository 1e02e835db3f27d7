use vstd::prelude::*;

verus! {

/// One of the two players of a game.
#[derive(PartialEq, Eq, Structural, Debug, Clone, Copy)]
pub enum Player {
    Stan,
    Ollie,
}

/// The player who is not `p`.
pub open spec fn opponent(p: Player) -> Player {
    match p {
        Player::Stan => Player::Ollie,
        Player::Ollie => Player::Stan,
    }
}

impl Player {
    /// The other player.
    pub fn other(&self) -> (r: Player)
        ensures
            r == opponent(*self),
            r != *self,
    {
        match self {
            Player::Stan => Player::Ollie,
            Player::Ollie => Player::Stan,
        }
    }
}

/// Taking the other player twice gives the player back.
pub proof fn lemma_other_involutive(p: Player)
    ensures
        opponent(opponent(p)) == p,
        opponent(p) != p,
{
}

} // verus!
