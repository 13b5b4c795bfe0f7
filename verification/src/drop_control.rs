//! The drop controller: the cooldown timer, the queued kind, and the
//! preview-then-commit cycle that is the only way new pieces enter the
//! field.
//!
//! A commit position is always clamped so the committed piece's bounding
//! circle stays inside the walls, for every kind and every raw pointer
//! position.

use vstd::prelude::*;
use crate::field::{
    DROP_COOLDOWN_MS, FRUIT_SPAWN_HEIGHT, LEFT_WALL, RIGHT_WALL, SPAWN_MARGIN, WALL_THICKNESS,
};
use crate::fruit_type::FruitType;
use crate::registry::{
    Fruit, Piece, PieceRegistry, RegistryError, at_most_one_preview, has_preview, idx_of,
    lemma_idx_of_unique, lemma_preview_idx_unique, piece_at, preview_idx, unique_ids,
};

verus! {

/// Half the diameter of a piece of the kind.
pub open spec fn half_size(t: FruitType) -> int {
    t.spec_size() as int / 2
}

/// Leftmost centre position a piece of the kind may spawn at.
pub open spec fn left_bound(t: FruitType) -> int {
    LEFT_WALL + WALL_THICKNESS + half_size(t) + SPAWN_MARGIN
}

/// Rightmost centre position a piece of the kind may spawn at.
pub open spec fn right_bound(t: FruitType) -> int {
    RIGHT_WALL - WALL_THICKNESS - half_size(t) - SPAWN_MARGIN
}

/// The raw pointer position clamped into the spawnable band of the kind.
pub open spec fn clamp_spec(n: int, t: FruitType) -> int {
    if n < left_bound(t) {
        left_bound(t)
    } else if n > right_bound(t) {
        right_bound(t)
    } else {
        n
    }
}

/// A fresh preview piece of the kind at the clamped pointer position.
pub open spec fn preview_piece(id: u64, t: FruitType, px: int) -> Piece {
    Piece {
        id,
        fruit: Fruit(t),
        x: clamp_spec(px, t) as i32,
        y: FRUIT_SPAWN_HEIGHT,
        has_collided: false,
        is_preview: true,
    }
}

/// One preview advance: the preview follows the pointer, clamped for its
/// own kind; if no preview exists, one of the queued kind is spawned at
/// the clamped pointer position. Returns the pieces and the next fresh
/// identifier.
pub open spec fn preview_step(s: Seq<Piece>, nid: u64, queued: FruitType, px: int) -> (
    Seq<Piece>,
    u64,
) {
    if has_preview(s) {
        let i = preview_idx(s);
        (s.update(i, (Piece { x: clamp_spec(px, s[i].fruit.0) as i32, ..s[i] })), nid)
    } else {
        (s.push(preview_piece(nid, queued, px)), (nid + 1) as u64)
    }
}

/// One drop commit: the preview becomes a settled piece at the clamped
/// pointer position and spawn height, and a new preview of the freshly
/// queued kind appears at the pointer. Returns the pieces and the next
/// fresh identifier.
pub open spec fn drop_commit_step(s: Seq<Piece>, nid: u64, px: int, nt: FruitType) -> (
    Seq<Piece>,
    u64,
)
    recommends
        has_preview(s),
{
    let i = preview_idx(s);
    let t = s[i].fruit.0;
    let committed = Piece {
        x: clamp_spec(px, t) as i32,
        y: FRUIT_SPAWN_HEIGHT,
        is_preview: false,
        ..s[i]
    };
    (s.update(i, committed).push(preview_piece(nid, nt, px)), (nid + 1) as u64)
}

/// A preview advance preserves the registry invariants, leaves a preview
/// in place, keeps the settled count, and never clears a collided flag.
pub proof fn lemma_preview_step_props(s: Seq<Piece>, nid: u64, queued: FruitType, px: int)
    requires
        unique_ids(s),
        at_most_one_preview(s),
        crate::registry::ids_below(s, nid),
        nid < u64::MAX,
    ensures
        ({
            let r = preview_step(s, nid, queued, px);
            &&& unique_ids(r.0)
            &&& at_most_one_preview(r.0)
            &&& crate::registry::ids_below(r.0, r.1)
            &&& nid <= r.1 <= nid + 1
            &&& has_preview(r.0)
            &&& crate::registry::num_settled(r.0) == crate::registry::num_settled(s)
            &&& (forall|id: u64|
                #[trigger] crate::registry::has_id(r.0, id) ==> crate::registry::has_id(s, id)
                    || id == nid)
            &&& (forall|id: u64|
                #[trigger] crate::registry::has_id(r.0, id) && crate::registry::has_id(s, id)
                    && piece_at(s, id).has_collided ==> piece_at(r.0, id).has_collided)
        }),
{
    let r = preview_step(s, nid, queued, px);
    assert forall|id: u64| #[trigger] crate::registry::has_id(r.0, id) implies
        crate::registry::has_id(s, id) || id == nid by {
        let k = choose|k: int| 0 <= k < r.0.len() && r.0[k].id == id;
        if k < s.len() {
            assert(r.0[k].id == s[k].id);
        }
    }
    if has_preview(s) {
        let i = preview_idx(s);
        lemma_preview_idx_unique(s, i);
        let p = Piece { x: clamp_spec(px, s[i].fruit.0) as i32, ..s[i] };
        crate::registry::lemma_wf_update(s, i, p, nid);
        crate::registry::lemma_num_settled_update(s, i, p);
        assert(r.0[i].is_preview);
        assert forall|id: u64|
            #[trigger] crate::registry::has_id(r.0, id) && crate::registry::has_id(s, id)
                && piece_at(s, id).has_collided implies piece_at(r.0, id).has_collided by {
            let k = choose|k: int| 0 <= k < r.0.len() && r.0[k].id == id;
            assert(r.0[k].id == s[k].id);
            lemma_idx_of_unique(s, id, k);
            lemma_idx_of_unique(r.0, id, k);
        }
    } else {
        let p = preview_piece(nid, queued, px);
        crate::registry::lemma_num_settled_push(s, p);
        assert(r.0[s.len() as int].is_preview);
        assert forall|i: int, j: int|
            0 <= i < r.0.len() && 0 <= j < r.0.len() && i != j implies r.0[i].id != r.0[j].id by {
            if i < s.len() && j < s.len() {
                assert(r.0[i] == s[i] && r.0[j] == s[j]);
            } else if i < s.len() {
                assert(s[i].id < nid);
            } else {
                assert(s[j].id < nid);
            }
        }
        assert forall|i: int, j: int|
            0 <= i < r.0.len() && 0 <= j < r.0.len() && r.0[i].is_preview
                && r.0[j].is_preview implies i == j by {
            if i < s.len() {
                assert(r.0[i] == s[i]);
                assert(!has_preview(s));
            }
            if j < s.len() {
                assert(r.0[j] == s[j]);
                assert(!has_preview(s));
            }
        }
        assert forall|k: int| 0 <= k < r.0.len() implies r.0[k].id < r.1 by {
            if k < s.len() {
                assert(r.0[k] == s[k]);
            }
        }
        assert forall|id: u64|
            #[trigger] crate::registry::has_id(r.0, id) && crate::registry::has_id(s, id)
                && piece_at(s, id).has_collided implies piece_at(r.0, id).has_collided by {
            let k = choose|k: int| 0 <= k < s.len() && s[k].id == id;
            assert(r.0[k] == s[k]);
            lemma_idx_of_unique(s, id, k);
            crate::registry::lemma_wf_update(s, 0, s[0], nid);
            assert(r.0[k].id == id);
            assert(idx_of(r.0, id) == k) by {
                let k2 = idx_of(r.0, id);
                assert(0 <= k2 < r.0.len() && r.0[k2].id == id);
                if k2 != k {
                    if k2 < s.len() {
                        assert(r.0[k2] == s[k2]);
                    } else {
                        assert(r.0[k2].id == nid);
                        assert(s[k].id < nid);
                    }
                }
            }
        }
    }
}

/// A drop commit preserves the registry invariants, raises the settled
/// count by exactly one, leaves exactly the new preview in place, and
/// never clears a collided flag.
pub proof fn lemma_commit_step_props(s: Seq<Piece>, nid: u64, px: int, nt: FruitType)
    requires
        unique_ids(s),
        at_most_one_preview(s),
        crate::registry::ids_below(s, nid),
        nid < u64::MAX,
        has_preview(s),
    ensures
        ({
            let r = drop_commit_step(s, nid, px, nt);
            &&& unique_ids(r.0)
            &&& at_most_one_preview(r.0)
            &&& crate::registry::ids_below(r.0, r.1)
            &&& r.1 == nid + 1
            &&& has_preview(r.0)
            &&& crate::registry::num_settled(r.0) == crate::registry::num_settled(s) + 1
            &&& (forall|id: u64|
                #[trigger] crate::registry::has_id(r.0, id) ==> crate::registry::has_id(s, id)
                    || id == nid)
            &&& (forall|id: u64|
                #[trigger] crate::registry::has_id(r.0, id) && crate::registry::has_id(s, id)
                    && piece_at(s, id).has_collided ==> piece_at(r.0, id).has_collided)
        }),
{
    let r = drop_commit_step(s, nid, px, nt);
    assert forall|id: u64| #[trigger] crate::registry::has_id(r.0, id) implies
        crate::registry::has_id(s, id) || id == nid by {
        let k = choose|k: int| 0 <= k < r.0.len() && r.0[k].id == id;
        if k < s.len() {
            assert(r.0[k].id == s[k].id);
        }
    }
    let i = preview_idx(s);
    lemma_preview_idx_unique(s, i);
    let t = s[i].fruit.0;
    let committed = Piece {
        x: clamp_spec(px, t) as i32,
        y: FRUIT_SPAWN_HEIGHT,
        is_preview: false,
        ..s[i]
    };
    let s1 = s.update(i, committed);
    crate::registry::lemma_wf_update(s, i, committed, nid);
    crate::registry::lemma_num_settled_update(s, i, committed);
    let p = preview_piece(nid, nt, px);
    crate::registry::lemma_num_settled_push(s1, p);
    assert(r.0 == s1.push(p));
    assert(r.0[s.len() as int].is_preview);
    assert forall|k: int, j: int|
        0 <= k < r.0.len() && 0 <= j < r.0.len() && k != j implies r.0[k].id != r.0[j].id by {
        if k < s.len() && j < s.len() {
            assert(r.0[k] == s1[k] && r.0[j] == s1[j]);
            assert(s1[k].id == s[k].id && s1[j].id == s[j].id);
        } else if k < s.len() {
            assert(r.0[k].id == s[k].id && s[k].id < nid);
        } else if j < s.len() {
            assert(r.0[j].id == s[j].id && s[j].id < nid);
        }
    }
    assert forall|k: int, j: int|
        0 <= k < r.0.len() && 0 <= j < r.0.len() && r.0[k].is_preview
            && r.0[j].is_preview implies k == j by {
        if k < s.len() {
            assert(r.0[k] == s1[k]);
            assert(s1[k].is_preview ==> s[k].is_preview && k != i);
            assert(s[k].is_preview ==> k == i);
        }
        if j < s.len() {
            assert(r.0[j] == s1[j]);
            assert(s1[j].is_preview ==> s[j].is_preview && j != i);
            assert(s[j].is_preview ==> j == i);
        }
    }
    assert forall|k: int| 0 <= k < r.0.len() implies r.0[k].id < r.1 by {
        if k < s.len() {
            assert(r.0[k] == s1[k]);
            assert(s1[k].id == s[k].id);
        }
    }
    assert forall|id: u64|
        #[trigger] crate::registry::has_id(r.0, id) && crate::registry::has_id(s, id) && piece_at(
            s,
            id,
        ).has_collided implies piece_at(r.0, id).has_collided by {
        let k = choose|k: int| 0 <= k < s.len() && s[k].id == id;
        lemma_idx_of_unique(s, id, k);
        assert(r.0[k] == s1[k]);
        assert(r.0[k].id == id);
        assert(idx_of(r.0, id) == k) by {
            let k2 = idx_of(r.0, id);
            assert(0 <= k2 < r.0.len() && r.0[k2].id == id);
            if k2 != k {
                if k2 < s.len() {
                    assert(r.0[k2] == s1[k2]);
                    assert(s1[k2].id == s[k2].id);
                } else {
                    assert(r.0[k2].id == nid);
                    assert(s[k].id < nid);
                }
            }
        }
        assert(s1[k].has_collided == s[k].has_collided);
    }
}

/// The cooldown after `elapsed_ms` have passed.
pub open spec fn ticked_cooldown(cooldown_ms: u32, elapsed_ms: u32) -> u32 {
    if cooldown_ms >= elapsed_ms {
        (cooldown_ms - elapsed_ms) as u32
    } else {
        0
    }
}

/// The drop controller's mutable state: the cooldown until the next
/// commit is allowed, and the kind the next committed piece will have.
#[derive(Clone, Copy, Debug, PartialEq, Eq, Structural)]
pub struct DropSession {
    /// Milliseconds until a drop request is honoured again; 0 means ready.
    pub cooldown_ms: u32,
    /// The kind of the piece the preview shows and the next commit drops.
    pub queued_tier: FruitType,
}

impl DropSession {
    /// A session as at startup: a freshly drawn queued kind, with the
    /// cooldown running so the first drop waits the full duration.
    pub fn fresh() -> (r: DropSession)
        ensures
            r.cooldown_ms == DROP_COOLDOWN_MS,
            r.queued_tier.is_spawnable(),
    {
        DropSession { cooldown_ms: DROP_COOLDOWN_MS, queued_tier: FruitType::random() }
    }
}

/// What a drop request came to.
#[derive(Clone, Copy, Debug, PartialEq, Eq, Structural)]
pub enum DropOutcome {
    /// The preview was committed as a settled piece and a new preview was
    /// spawned.
    Committed {
        /// Identifier of the piece that was committed.
        piece: u64,
        /// Identifier of the new preview.
        preview: u64,
    },
    /// The request came before the cooldown expired and was ignored.
    CooldownActive,
    /// No pointer position was resolvable this tick; nothing happened.
    NoPointer,
}

/// Clamps a raw pointer position into the band where a piece of the kind
/// fits between the walls with the spawn margin to spare.
pub fn clamp_to_bounds(n: i32, fruit_type: &FruitType) -> (r: i32)
    ensures
        r == clamp_spec(n as int, *fruit_type),
        left_bound(*fruit_type) <= r <= right_bound(*fruit_type),
{
    let half = (fruit_type.size() / 2) as i32;
    let lo = LEFT_WALL + WALL_THICKNESS + half + SPAWN_MARGIN;
    let hi = RIGHT_WALL - WALL_THICKNESS - half - SPAWN_MARGIN;
    if n < lo {
        lo
    } else if n > hi {
        hi
    } else {
        n
    }
}

/// Law: clamping is exhaustive. For every kind and every raw pointer
/// position, the clamped centre keeps the piece's bounding circle off
/// both walls by at least the spawn margin.
pub proof fn lemma_clamp_in_bounds(n: int, t: FruitType)
    ensures
        clamp_spec(n, t) - half_size(t) >= LEFT_WALL + WALL_THICKNESS + SPAWN_MARGIN,
        clamp_spec(n, t) + half_size(t) <= RIGHT_WALL - WALL_THICKNESS - SPAWN_MARGIN,
{
    assert(half_size(t) <= 165);
}

/// Advances the cooldown by the elapsed time, saturating at ready.
pub fn tick_drop_timer(session: &mut DropSession, elapsed_ms: u32)
    ensures
        final(session).queued_tier == old(session).queued_tier,
        final(session).cooldown_ms == ticked_cooldown(old(session).cooldown_ms, elapsed_ms),
{
    if session.cooldown_ms >= elapsed_ms {
        session.cooldown_ms = session.cooldown_ms - elapsed_ms;
    } else {
        session.cooldown_ms = 0;
    }
}

/// The ghost-piece-follows-cursor behaviour: every tick with a resolvable
/// pointer, the preview's x-position follows the pointer, clamped for its
/// kind; if no preview exists, one of the queued kind is spawned. A tick
/// without a pointer changes nothing. The cooldown is untouched.
pub fn drop_preview(registry: &mut PieceRegistry, session: &DropSession, pointer_x: Option<i32>)
    requires
        old(registry).wf(),
        old(registry).spec_next_id() < u64::MAX,
    ensures
        final(registry).wf(),
        pointer_x is None ==> final(registry)@ == old(registry)@ && final(registry).spec_next_id()
            == old(registry).spec_next_id(),
        pointer_x is Some ==> ({
            let stepped = preview_step(
                old(registry)@,
                old(registry).spec_next_id(),
                session.queued_tier,
                pointer_x->Some_0 as int,
            );
            &&& final(registry)@ == stepped.0
            &&& final(registry).spec_next_id() == stepped.1
            &&& has_preview(final(registry)@)
        }),
{
    let px = match pointer_x {
        None => {
            return ;
        },
        Some(px) => px,
    };
    match registry.preview_index() {
        Some(i) => {
            proof {
                lemma_preview_idx_unique(registry@, i as int);
            }
            let p = *registry.get(i);
            let x = clamp_to_bounds(px, &p.fruit.0);
            proof {
                lemma_idx_of_unique(registry@, p.id, i as int);
            }
            registry.set_x(p.id, x);
            assert(registry@[i as int].is_preview);
        },
        None => {
            let x = clamp_to_bounds(px, &session.queued_tier);
            let res = registry.spawn(session.queued_tier, x, FRUIT_SPAWN_HEIGHT, true);
            match res {
                Ok(id) => {
                    assert(registry@[registry@.len() - 1].is_preview);
                },
                Err(_) => {
                    assert(false);
                },
            }
        },
    }
}

/// Answers a drop request. Before the cooldown expires the request is
/// ignored; without a resolvable pointer it is a no-op. Otherwise the
/// preview is committed as a settled piece at the clamped pointer
/// position, a new kind is drawn from the spawnable sub-range, a new
/// preview of that kind is spawned, and the cooldown restarts.
///
/// A ready drop with a pointer demands an existing preview: committing
/// without one is a wiring bug, not a runtime condition.
pub fn drop_fruit(
    registry: &mut PieceRegistry,
    session: &mut DropSession,
    pointer_x: Option<i32>,
) -> (r: DropOutcome)
    requires
        old(registry).wf(),
        old(registry).spec_next_id() < u64::MAX,
        old(session).cooldown_ms == 0 && pointer_x is Some ==> has_preview(old(registry)@),
    ensures
        final(registry).wf(),
        old(session).cooldown_ms > 0 ==> r == DropOutcome::CooldownActive && final(registry)@
            == old(registry)@ && final(registry).spec_next_id() == old(registry).spec_next_id()
            && *final(session) == *old(session),
        old(session).cooldown_ms == 0 && pointer_x is None ==> r == DropOutcome::NoPointer
            && final(registry)@ == old(registry)@ && final(registry).spec_next_id() == old(
            registry,
        ).spec_next_id() && *final(session) == *old(session),
        old(session).cooldown_ms == 0 && pointer_x is Some ==> ({
            let px = pointer_x->Some_0 as int;
            let s = old(registry)@;
            let nid = old(registry).spec_next_id();
            let nt = final(session).queued_tier;
            let stepped = drop_commit_step(s, nid, px, nt);
            &&& nt.is_spawnable()
            &&& final(registry)@ == stepped.0
            &&& final(registry).spec_next_id() == stepped.1
            &&& final(session).cooldown_ms == DROP_COOLDOWN_MS
            &&& r == (DropOutcome::Committed { piece: s[preview_idx(s)].id, preview: nid })
        }),
{
    if session.cooldown_ms > 0 {
        return DropOutcome::CooldownActive;
    }
    let px = match pointer_x {
        None => {
            return DropOutcome::NoPointer;
        },
        Some(px) => px,
    };
    let ghost s = registry@;
    let ghost nid = registry.spec_next_id();
    let i = match registry.preview_index() {
        Some(i) => i,
        None => {
            proof {
                assert(false);
            }
            return DropOutcome::NoPointer;
        },
    };
    proof {
        lemma_preview_idx_unique(s, i as int);
        lemma_idx_of_unique(s, s[i as int].id, i as int);
    }
    let p = *registry.get(i);
    let x = clamp_to_bounds(px, &p.fruit.0);
    let res = registry.promote_preview_to_settled(p.id, x, FRUIT_SPAWN_HEIGHT);
    match res {
        Ok(_) => {},
        Err(_) => {
            proof {
                assert(false);
            }
        },
    }
    assert forall|j: int| 0 <= j < registry@.len() implies !registry@[j].is_preview by {
        if j != i as int {
            assert(registry@[j] == s[j]);
            assert(!s[j].is_preview);
        }
    }
    let nt = FruitType::random();
    session.queued_tier = nt;
    let x2 = clamp_to_bounds(px, &nt);
    let res2 = registry.spawn(nt, x2, FRUIT_SPAWN_HEIGHT, true);
    session.cooldown_ms = DROP_COOLDOWN_MS;
    let pid2 = match res2 {
        Ok(id) => id,
        Err(_) => {
            proof {
                assert(false);
            }
            0
        },
    };
    let r = DropOutcome::Committed { piece: p.id, preview: pid2 };
    proof {
        let stepped = drop_commit_step(s, nid, px as int, nt);
        assert(registry@ == stepped.0);
        assert(nt.is_spawnable());
    }
    r
}

} // verus!
