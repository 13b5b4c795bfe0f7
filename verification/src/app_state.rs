//! The session state machine: Playing until a settled, collided piece
//! rests above the loss height, then Lost until a restart.

use vstd::prelude::*;
use crate::field::LOSE_HEIGHT;
use crate::registry::{Piece, PieceRegistry};

verus! {

/// The session's state. `Lost` is terminal until a restart.
#[derive(Clone, Copy, Debug, Default, PartialEq, Eq, Structural, Hash)]
pub enum AppState {
    /// The game is running: collisions resolve, drops are accepted.
    #[default]
    Playing,
    /// A settled, collided piece rested above the loss height. Only a
    /// restart is accepted.
    Lost,
}

/// Whether the pieces meet the loss condition: some settled piece that
/// has touched another rests above the loss height.
///
/// The collided gate matters: a freshly dropped piece passes through the
/// loss region before settling and must not end the session.
pub open spec fn loss_condition(s: Seq<Piece>) -> bool {
    exists|i: int|
        0 <= i < s.len() && !(#[trigger] s[i]).is_preview && s[i].has_collided && s[i].y
            > LOSE_HEIGHT
}

/// Evaluates the loss condition over the live pieces.
pub fn check_loss(registry: &PieceRegistry) -> (r: bool)
    ensures
        r == loss_condition(registry@),
{
    let n = registry.len();
    let mut i: usize = 0;
    while i < n
        invariant
            n == registry@.len(),
            i <= n,
            forall|j: int|
                0 <= j < i ==> !(!(#[trigger] registry@[j]).is_preview
                    && registry@[j].has_collided && registry@[j].y > LOSE_HEIGHT),
        decreases n - i,
    {
        let p = *registry.get(i);
        if !p.is_preview && p.has_collided && p.y > LOSE_HEIGHT {
            assert(loss_condition(registry@));
            return true;
        }
        i = i + 1;
    }
    false
}

} // verus!
