//! Session orchestration: one simulation tick runs the collision
//! resolver, then the loss evaluation, then the drop cycle, in that fixed
//! order; a lost session only answers a restart request.

use vstd::prelude::*;
use crate::app_state::{AppState, check_loss, loss_condition};
use crate::collisions::{MergeEvent, handle_collisions, resolve};
use crate::drop_control::{
    DropOutcome, DropSession, drop_commit_step, drop_fruit, drop_preview, lemma_commit_step_props,
    lemma_preview_step_props, preview_piece, preview_step, tick_drop_timer, ticked_cooldown,
};
use crate::field::{DROP_COOLDOWN_MS, FRUIT_SPAWN_HEIGHT};
use crate::fruit_type::FruitType;
use crate::registry::{
    Piece, PieceRegistry, has_id, has_preview, num_settled, piece_at, preview_idx,
};

verus! {

/// The whole mutable state of one session: the live pieces, the drop
/// controller, and the playing/lost state.
pub struct GameWorld {
    /// The live pieces.
    pub registry: PieceRegistry,
    /// The drop controller's cooldown and queued kind.
    pub session: DropSession,
    /// Playing or Lost.
    pub state: AppState,
}

/// What the collaborators reported for one tick: elapsed time, the
/// pointer's world x-position if resolvable, and the edge-triggered drop
/// and restart requests.
#[derive(Clone, Copy, Debug)]
pub struct TickInput {
    /// Milliseconds since the previous tick.
    pub elapsed_ms: u32,
    /// The pointer's world x-position, if one was resolvable this tick.
    pub pointer_x: Option<i32>,
    /// Whether a drop was requested this tick.
    pub drop_requested: bool,
    /// Whether a restart was requested this tick (honoured only when
    /// Lost).
    pub restart_requested: bool,
}

/// What one tick produced, for the rendering/audio collaborator.
#[derive(Debug)]
pub struct TickOutcome {
    /// The merges that happened, in order.
    pub merges: Vec<MergeEvent>,
    /// Whether the session was lost this tick.
    pub lost: bool,
    /// Whether the session restarted this tick.
    pub restarted: bool,
    /// What a drop request came to, if the drop cycle ran.
    pub drop_outcome: Option<DropOutcome>,
}

impl GameWorld {
    /// A fresh session: no pieces, a freshly drawn queued kind with the
    /// cooldown running, Playing.
    pub fn new() -> (r: GameWorld)
        ensures
            r.registry.wf(),
            r.registry@ == Seq::<Piece>::empty(),
            r.registry.spec_next_id() == 0,
            r.session.cooldown_ms == DROP_COOLDOWN_MS,
            r.session.queued_tier.is_spawnable(),
            r.state == AppState::Playing,
    {
        GameWorld {
            registry: PieceRegistry::new(),
            session: DropSession::fresh(),
            state: AppState::Playing,
        }
    }
}

/// Resets the session: every piece is destroyed, a fresh kind is queued,
/// a new preview of that kind is spawned at the (clamped) pointer — or at
/// the field's centre when no pointer resolves — the cooldown is ready at
/// once, and play resumes.
pub fn restart_game(world: &mut GameWorld, pointer_x: Option<i32>)
    requires
        old(world).registry.wf(),
        old(world).registry.spec_next_id() < u64::MAX,
    ensures
        final(world).registry.wf(),
        final(world).state == AppState::Playing,
        final(world).session.cooldown_ms == 0,
        final(world).session.queued_tier.is_spawnable(),
        final(world).registry.spec_next_id() == old(world).registry.spec_next_id() + 1,
        final(world).registry@ == Seq::<Piece>::empty().push(
            preview_piece(
                old(world).registry.spec_next_id(),
                final(world).session.queued_tier,
                (match pointer_x {
                    Some(p) => p as int,
                    None => 0,
                }),
            ),
        ),
        num_settled(final(world).registry@) == 0,
        has_preview(final(world).registry@),
{
    world.registry.clear();
    let nt = FruitType::random();
    let px = match pointer_x {
        Some(p) => p,
        None => 0,
    };
    let x = crate::drop_control::clamp_to_bounds(px, &nt);
    let res = world.registry.spawn(nt, x, FRUIT_SPAWN_HEIGHT, true);
    match res {
        Ok(_) => {},
        Err(_) => {
            proof {
                assert(false);
            }
        },
    }
    world.session = DropSession { cooldown_ms: 0, queued_tier: nt };
    world.state = AppState::Playing;
    proof {
        crate::registry::lemma_num_settled_push(
            Seq::<Piece>::empty(),
            preview_piece(
                old(world).registry.spec_next_id(),
                nt,
                (match pointer_x {
                    Some(p) => p as int,
                    None => 0,
                }),
            ),
        );
        assert(world.registry@[0].is_preview);
    }
}

/// One simulation tick.
///
/// While Playing: the contact report is resolved (merges applied), then
/// the loss condition is evaluated over the result — a loss freezes the
/// field and gates out the whole drop cycle — otherwise the cooldown
/// advances, the preview follows the pointer, and a drop request is
/// answered. While Lost the world is inert until a restart request, which
/// resets the session. A piece's collided flag is never cleared by a
/// tick, whatever the branch.
pub fn tick(world: &mut GameWorld, input: TickInput, pairs: &Vec<(u64, u64)>) -> (r: TickOutcome)
    requires
        old(world).registry.wf(),
        old(world).registry.spec_next_id() < u64::MAX - 1,
    ensures
        final(world).registry.wf(),
        // a lost session without a restart request is inert
        old(world).state == AppState::Lost && !input.restart_requested ==> final(world).registry@
            == old(world).registry@ && final(world).registry.spec_next_id() == old(world).registry.spec_next_id() && final(world).session == old(world).session && final(world).state == AppState::Lost && r.merges@ == Seq::<MergeEvent>::empty() && !r.lost
            && !r.restarted && r.drop_outcome is None,
        // a restart request while lost resets the session
        old(world).state == AppState::Lost && input.restart_requested ==> ({
            &&& final(world).state == AppState::Playing
            &&& final(world).session.cooldown_ms == 0
            &&& final(world).session.queued_tier.is_spawnable()
            &&& final(world).registry.spec_next_id() == old(world).registry.spec_next_id() + 1
            &&& final(world).registry@ == Seq::<Piece>::empty().push(
                preview_piece(
                    old(world).registry.spec_next_id(),
                    final(world).session.queued_tier,
                    (match input.pointer_x {
                        Some(p) => p as int,
                        None => 0,
                    }),
                ),
            )
            &&& num_settled(final(world).registry@) == 0
            &&& has_preview(final(world).registry@)
            &&& r.merges@ == Seq::<MergeEvent>::empty()
            &&& !r.lost
            &&& r.restarted
            &&& r.drop_outcome is None
        }),
        // a playing tick: resolve contacts, evaluate loss, run the drop cycle
        old(world).state == AppState::Playing ==> ({
            let res = resolve(old(world).registry@, pairs@, Set::empty());
            let cd = ticked_cooldown(old(world).session.cooldown_ms, input.elapsed_ms);
            &&& r.merges@ == res.1
            &&& !r.restarted
            &&& r.lost == loss_condition(res.0)
            &&& num_settled(res.0) + res.1.len() == num_settled(old(world).registry@)
            &&& (loss_condition(res.0) ==> final(world).state == AppState::Lost && final(world).registry@ == res.0 && final(world).registry.spec_next_id() == old(world).registry.spec_next_id() && final(world).session == old(world).session
                && r.drop_outcome is None)
            &&& (!loss_condition(res.0) ==> final(world).state == AppState::Playing && (
            match input.pointer_x {
                None => {
                    &&& final(world).registry@ == res.0
                    &&& final(world).registry.spec_next_id() == old(world).registry.spec_next_id()
                    &&& final(world).session == (DropSession {
                        cooldown_ms: cd,
                        queued_tier: old(world).session.queued_tier,
                    })
                    &&& r.drop_outcome == (if input.drop_requested {
                        if cd > 0 {
                            Some(DropOutcome::CooldownActive)
                        } else {
                            Some(DropOutcome::NoPointer)
                        }
                    } else {
                        None::<DropOutcome>
                    })
                },
                Some(p) => {
                    let stepped = preview_step(
                        res.0,
                        old(world).registry.spec_next_id(),
                        old(world).session.queued_tier,
                        p as int,
                    );
                    &&& (!input.drop_requested || cd > 0 ==> final(world).registry@ == stepped.0
                        && final(world).registry.spec_next_id() == stepped.1 && final(world).session == (DropSession {
                        cooldown_ms: cd,
                        queued_tier: old(world).session.queued_tier,
                    }) && r.drop_outcome == (if input.drop_requested {
                        Some(DropOutcome::CooldownActive)
                    } else {
                        None::<DropOutcome>
                    }))
                    &&& (input.drop_requested && cd == 0 ==> ({
                        let nt = final(world).session.queued_tier;
                        let committed = drop_commit_step(stepped.0, stepped.1, p as int, nt);
                        &&& nt.is_spawnable()
                        &&& final(world).registry@ == committed.0
                        &&& final(world).registry.spec_next_id() == committed.1
                        &&& final(world).session.cooldown_ms == DROP_COOLDOWN_MS
                        &&& r.drop_outcome == Some(
                            (DropOutcome::Committed {
                                piece: stepped.0[preview_idx(stepped.0)].id,
                                preview: stepped.1,
                            }),
                        )
                    }))
                },
            }))
        }),
        // collided flags are monotone across a tick
        forall|id: u64|
            #[trigger] has_id(final(world).registry@, id) && has_id(old(world).registry@, id)
                && piece_at(old(world).registry@, id).has_collided ==> piece_at(
                final(world).registry@,
                id,
            ).has_collided,
{
    let ghost s0 = world.registry@;
    let ghost nid0 = world.registry.spec_next_id();
    let ghost session0 = world.session;
    match world.state {
        AppState::Lost => {
            if input.restart_requested {
                restart_game(world, input.pointer_x);
                proof {
                    assert forall|id: u64|
                        #[trigger] has_id(world.registry@, id) && has_id(s0, id) && piece_at(
                            s0,
                            id,
                        ).has_collided implies piece_at(world.registry@, id).has_collided by {
                        let k = choose|k: int|
                            0 <= k < world.registry@.len() && world.registry@[k].id == id;
                        assert(world.registry@[k].id == nid0);
                        let k2 = choose|k2: int| 0 <= k2 < s0.len() && s0[k2].id == id;
                        assert(s0[k2].id < nid0);
                    }
                }
                TickOutcome { merges: Vec::new(), lost: false, restarted: true, drop_outcome: None }
            } else {
                TickOutcome {
                    merges: Vec::new(),
                    lost: false,
                    restarted: false,
                    drop_outcome: None,
                }
            }
        },
        AppState::Playing => {
            let merges = handle_collisions(&mut world.registry, pairs);
            let ghost s1 = world.registry@;
            let lost_now = check_loss(&world.registry);
            if lost_now {
                world.state = AppState::Lost;
                return TickOutcome { merges, lost: true, restarted: false, drop_outcome: None };
            }
            tick_drop_timer(&mut world.session, input.elapsed_ms);
            drop_preview(&mut world.registry, &world.session, input.pointer_x);
            let ghost s2 = world.registry@;
            let ghost nid2 = world.registry.spec_next_id();
            proof {
                if input.pointer_x is Some {
                    lemma_preview_step_props(
                        s1,
                        nid0,
                        session0.queued_tier,
                        input.pointer_x->Some_0 as int,
                    );
                }
            }
            let drop_outcome = if input.drop_requested {
                Some(drop_fruit(&mut world.registry, &mut world.session, input.pointer_x))
            } else {
                None
            };
            proof {
                let cd = ticked_cooldown(session0.cooldown_ms, input.elapsed_ms);
                if input.pointer_x is Some && input.drop_requested && cd == 0 {
                    lemma_commit_step_props(
                        s2,
                        nid2,
                        input.pointer_x->Some_0 as int,
                        world.session.queued_tier,
                    );
                }
                assert forall|id: u64|
                    #[trigger] has_id(world.registry@, id) && has_id(s0, id) && piece_at(
                        s0,
                        id,
                    ).has_collided implies piece_at(world.registry@, id).has_collided by {
                    assert(crate::registry::ids_below(s0, nid0));
                    assert(piece_at(s0, id).has_collided);
                    let k0 = choose|k: int| 0 <= k < s0.len() && s0[k].id == id;
                    assert(s0[k0].id < nid0);
                    if has_id(world.registry@, id) {
                        assert(has_id(s2, id) || id == nid2);
                        assert(has_id(s2, id));
                        assert(has_id(s1, id) || id == nid0);
                        assert(has_id(s1, id));
                        assert(piece_at(s1, id).has_collided);
                        assert(piece_at(s2, id).has_collided);
                    }
                }
            }
            TickOutcome { merges, lost: false, restarted: false, drop_outcome }
        },
    }
}

} // verus!
