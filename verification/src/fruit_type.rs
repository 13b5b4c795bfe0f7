//! The tier table: the ordered piece kinds, their diameters, and the merge
//! successor of each kind.

use vstd::prelude::*;

verus! {

/// The ordered piece kinds, smallest to largest. Two touching settled
/// pieces of the same kind merge into the next kind; the largest kind
/// has no successor and never merges.
#[derive(Clone, Copy, Debug, PartialEq, Eq, Structural, Hash)]
pub enum FruitType {
    Blueberry,
    Strawberry,
    Grapes,
    Lemon,
    Coconut,
    Apple,
    Orange,
    Pomegranate,
    Peach,
    Pineapple,
    Melon,
    Watermelon,
}

/// How many of the smallest kinds the drop queue draws from. Newly queued
/// pieces never come from the upper kinds, which keeps the early game fair.
pub const SPAWNABLE_KINDS: u8 = 5;

impl FruitType {
    /// Position of this kind in the tier order, 0 for the smallest.
    pub open spec fn ordinal(self) -> int {
        match self {
            FruitType::Blueberry => 0,
            FruitType::Strawberry => 1,
            FruitType::Grapes => 2,
            FruitType::Lemon => 3,
            FruitType::Coconut => 4,
            FruitType::Apple => 5,
            FruitType::Orange => 6,
            FruitType::Pomegranate => 7,
            FruitType::Peach => 8,
            FruitType::Pineapple => 9,
            FruitType::Melon => 10,
            FruitType::Watermelon => 11,
        }
    }

    /// Diameter of a piece of this kind, in world units.
    pub open spec fn spec_size(self) -> u32 {
        match self {
            FruitType::Blueberry => 30,
            FruitType::Strawberry => 50,
            FruitType::Grapes => 70,
            FruitType::Lemon => 100,
            FruitType::Coconut => 120,
            FruitType::Apple => 150,
            FruitType::Orange => 180,
            FruitType::Pomegranate => 210,
            FruitType::Peach => 240,
            FruitType::Pineapple => 270,
            FruitType::Melon => 300,
            FruitType::Watermelon => 330,
        }
    }

    /// The kind a merged pair of this kind turns into, `None` for the
    /// largest kind.
    pub open spec fn spec_successor(self) -> Option<FruitType> {
        match self {
            FruitType::Blueberry => Some(FruitType::Strawberry),
            FruitType::Strawberry => Some(FruitType::Grapes),
            FruitType::Grapes => Some(FruitType::Lemon),
            FruitType::Lemon => Some(FruitType::Coconut),
            FruitType::Coconut => Some(FruitType::Apple),
            FruitType::Apple => Some(FruitType::Orange),
            FruitType::Orange => Some(FruitType::Pomegranate),
            FruitType::Pomegranate => Some(FruitType::Peach),
            FruitType::Peach => Some(FruitType::Pineapple),
            FruitType::Pineapple => Some(FruitType::Melon),
            FruitType::Melon => Some(FruitType::Watermelon),
            FruitType::Watermelon => None,
        }
    }

    /// True of the kinds the drop queue may draw.
    pub open spec fn is_spawnable(self) -> bool {
        self.ordinal() < SPAWNABLE_KINDS
    }

    pub fn size(&self) -> (r: u32)
        ensures
            r == self.spec_size(),
    {
        match self {
            FruitType::Blueberry => 30,
            FruitType::Strawberry => 50,
            FruitType::Grapes => 70,
            FruitType::Lemon => 100,
            FruitType::Coconut => 120,
            FruitType::Apple => 150,
            FruitType::Orange => 180,
            FruitType::Pomegranate => 210,
            FruitType::Peach => 240,
            FruitType::Pineapple => 270,
            FruitType::Melon => 300,
            FruitType::Watermelon => 330,
        }
    }

    pub fn merge(&self) -> (r: Option<FruitType>)
        ensures
            r == self.spec_successor(),
    {
        match self {
            FruitType::Blueberry => Some(FruitType::Strawberry),
            FruitType::Strawberry => Some(FruitType::Grapes),
            FruitType::Grapes => Some(FruitType::Lemon),
            FruitType::Lemon => Some(FruitType::Coconut),
            FruitType::Coconut => Some(FruitType::Apple),
            FruitType::Apple => Some(FruitType::Orange),
            FruitType::Orange => Some(FruitType::Pomegranate),
            FruitType::Pomegranate => Some(FruitType::Peach),
            FruitType::Peach => Some(FruitType::Pineapple),
            FruitType::Pineapple => Some(FruitType::Melon),
            FruitType::Melon => Some(FruitType::Watermelon),
            FruitType::Watermelon => None,
        }
    }

    /// Maps a drawn byte onto the low spawnable sub-range of kinds, as an
    /// even split of the byte's residue classes.
    pub fn from_draw(draw: u8) -> (r: FruitType)
        ensures
            r.is_spawnable(),
            r.ordinal() == draw % SPAWNABLE_KINDS,
    {
        match draw % SPAWNABLE_KINDS {
            0 => FruitType::Blueberry,
            1 => FruitType::Strawberry,
            2 => FruitType::Grapes,
            3 => FruitType::Lemon,
            _ => FruitType::Coconut,
        }
    }

    /// Draws the kind of the next queued piece, always from the low
    /// spawnable sub-range.
    pub fn random() -> (r: FruitType)
        ensures
            r.is_spawnable(),
    {
        FruitType::from_draw(random_byte())
    }
}

/// Relies on `rand::random::<u8>`: draws a byte from the thread-local RNG.
/// Nothing is promised of the value.
#[verifier::external_body]
fn random_byte() -> (r: u8) {
    rand::random::<u8>()
}

/// The tier table is well formed: diameters strictly increase along the
/// successor chain, the successor (when present) is the next ordinal, and
/// only the largest kind lacks a successor.
pub proof fn lemma_tier_table(t: FruitType)
    ensures
        t.spec_successor() is Some ==> t.spec_successor()->Some_0.ordinal() == t.ordinal() + 1,
        t.spec_successor() is Some ==> t.spec_successor()->Some_0.spec_size() > t.spec_size(),
        t.spec_successor() is None <==> t == FruitType::Watermelon,
{
}

} // verus!
