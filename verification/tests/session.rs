use suika_core::app_state::AppState;
use suika_core::drop_control::{DropOutcome, DropSession};
use suika_core::fruit_type::FruitType;
use suika_core::game::{GameWorld, TickInput, tick};
use suika_core::registry::PieceRegistry;

fn playing_world(cooldown_ms: u32, queued: FruitType) -> GameWorld {
    GameWorld {
        registry: PieceRegistry::new(),
        session: DropSession {
            cooldown_ms,
            queued_tier: queued,
        },
        state: AppState::Playing,
    }
}

fn quiet_input() -> TickInput {
    TickInput {
        elapsed_ms: 0,
        pointer_x: None,
        drop_requested: false,
        restart_requested: false,
    }
}

/// A world already lost, with settled pieces on the field.
fn lost_world() -> GameWorld {
    let mut world = playing_world(500, FruitType::Grapes);
    assert_eq!(world.registry.spawn(FruitType::Lemon, 0, 250, false), Ok(0));
    assert_eq!(world.registry.spawn(FruitType::Coconut, 80, 250, false), Ok(1));
    let out = tick(
        &mut world,
        quiet_input(),
        &vec![(0, 1)],
    );
    assert!(out.lost);
    assert_eq!(world.state, AppState::Lost);
    world
}

#[test]
fn a_fresh_world_is_playing_and_empty() {
    let world = GameWorld::new();
    assert_eq!(world.state, AppState::Playing);
    assert_eq!(world.registry.len(), 0);
    assert_eq!(world.session.cooldown_ms, 500);
}

#[test]
fn drop_commits_once_and_cooldown_gates_the_second() {
    let mut world = playing_world(0, FruitType::Blueberry);
    let drop_input = TickInput {
        elapsed_ms: 0,
        pointer_x: Some(100),
        drop_requested: true,
        restart_requested: false,
    };
    let out = tick(&mut world, drop_input, &vec![]);
    assert!(matches!(
        out.drop_outcome,
        Some(DropOutcome::Committed {
            piece: 0,
            preview: 1
        })
    ));
    assert_eq!(world.registry.settled_count(), 1);
    assert_eq!(world.session.cooldown_ms, 500);
    let committed = *world.registry.get(world.registry.find_index(0).unwrap());
    assert!(!committed.is_preview);
    assert_eq!(committed.fruit.0, FruitType::Blueberry);
    assert_eq!((committed.x, committed.y), (100, 200));

    // a second request only 100 ms later is ignored: no new settled
    // piece, the preview keeps its kind, and the cooldown is not reset
    let preview_before = *world
        .registry
        .get(world.registry.preview_index().unwrap());
    let early_drop = TickInput {
        elapsed_ms: 100,
        pointer_x: Some(100),
        drop_requested: true,
        restart_requested: false,
    };
    let out2 = tick(&mut world, early_drop, &vec![]);
    assert!(matches!(out2.drop_outcome, Some(DropOutcome::CooldownActive)));
    assert_eq!(world.registry.settled_count(), 1);
    assert_eq!(world.session.cooldown_ms, 400);
    let preview_after = *world
        .registry
        .get(world.registry.preview_index().unwrap());
    assert_eq!(preview_after.fruit.0, preview_before.fruit.0);
    assert_eq!(preview_after.id, preview_before.id);

    // once the cooldown has fully elapsed the next request commits
    let late_drop = TickInput {
        elapsed_ms: 400,
        pointer_x: Some(-50),
        drop_requested: true,
        restart_requested: false,
    };
    let out3 = tick(&mut world, late_drop, &vec![]);
    assert!(matches!(out3.drop_outcome, Some(DropOutcome::Committed { .. })));
    assert_eq!(world.registry.settled_count(), 2);
}

#[test]
fn drop_without_pointer_is_a_no_op() {
    let mut world = playing_world(0, FruitType::Blueberry);
    let input = TickInput {
        elapsed_ms: 16,
        pointer_x: None,
        drop_requested: true,
        restart_requested: false,
    };
    let out = tick(&mut world, input, &vec![]);
    assert!(matches!(out.drop_outcome, Some(DropOutcome::NoPointer)));
    assert_eq!(world.registry.len(), 0);
}

#[test]
fn preview_follows_the_pointer_clamped() {
    let mut world = playing_world(500, FruitType::Grapes);
    let mut input = quiet_input();
    input.pointer_x = Some(50);
    tick(&mut world, input, &vec![]);
    let i = world.registry.preview_index().unwrap();
    let preview = *world.registry.get(i);
    assert!(preview.is_preview);
    assert_eq!(preview.fruit.0, FruitType::Grapes);
    assert_eq!((preview.x, preview.y), (50, 200));

    input.pointer_x = Some(-9999);
    tick(&mut world, input, &vec![]);
    let preview = *world.registry.get(world.registry.preview_index().unwrap());
    assert_eq!(preview.x, -345);

    // a tick without a pointer moves nothing
    input.pointer_x = None;
    tick(&mut world, input, &vec![]);
    let preview = *world.registry.get(world.registry.preview_index().unwrap());
    assert_eq!(preview.x, -345);
    assert_eq!(world.registry.settled_count(), 0);
}

#[test]
fn committed_pieces_stay_inside_the_walls() {
    // the largest kind, dropped at a far-right pointer, is clamped so its
    // bounding circle clears the wall and the margin
    let mut world = playing_world(0, FruitType::Watermelon);
    let input = TickInput {
        elapsed_ms: 0,
        pointer_x: Some(9999),
        drop_requested: true,
        restart_requested: false,
    };
    tick(&mut world, input, &vec![]);
    let committed = *world.registry.get(world.registry.find_index(0).unwrap());
    assert_eq!(committed.fruit.0, FruitType::Watermelon);
    assert_eq!(committed.x, 215);
    let half = (committed.fruit.0.size() / 2) as i32;
    assert!(committed.x + half <= 400 - 10);
    assert!(committed.x - half >= -400 + 10);
}

#[test]
fn merges_happen_through_a_tick() {
    let mut world = playing_world(500, FruitType::Blueberry);
    assert_eq!(world.registry.spawn(FruitType::Lemon, 0, 0, false), Ok(0));
    assert_eq!(world.registry.spawn(FruitType::Lemon, 90, 0, false), Ok(1));
    let out = tick(&mut world, quiet_input(), &vec![(0, 1)]);
    assert_eq!(out.merges.len(), 1);
    assert_eq!(out.merges[0].tier, FruitType::Coconut);
    assert!(!out.lost);
    assert_eq!(world.registry.settled_count(), 1);
    assert_eq!(world.state, AppState::Playing);
}

#[test]
fn uncollided_piece_above_the_line_does_not_lose() {
    let mut world = playing_world(500, FruitType::Blueberry);
    assert_eq!(world.registry.spawn(FruitType::Lemon, 0, 250, false), Ok(0));
    let out = tick(&mut world, quiet_input(), &vec![]);
    assert!(!out.lost);
    assert_eq!(world.state, AppState::Playing);
}

#[test]
fn collided_piece_above_the_line_loses_and_gates_the_drop() {
    let mut world = playing_world(0, FruitType::Blueberry);
    assert_eq!(world.registry.spawn(FruitType::Lemon, 0, 250, false), Ok(0));
    assert_eq!(world.registry.spawn(FruitType::Coconut, 80, 250, false), Ok(1));
    let input = TickInput {
        elapsed_ms: 0,
        pointer_x: Some(0),
        drop_requested: true,
        restart_requested: false,
    };
    let out = tick(&mut world, input, &vec![(0, 1)]);
    assert!(out.lost);
    assert_eq!(world.state, AppState::Lost);
    // entering Lost gates out the whole drop cycle in the same tick
    assert!(out.drop_outcome.is_none());
    assert_eq!(world.registry.settled_count(), 2);
    assert_eq!(world.session.cooldown_ms, 0);
}

#[test]
fn lost_world_is_inert_without_a_restart() {
    let mut world = lost_world();
    let settled_before = world.registry.settled_count();
    let input = TickInput {
        elapsed_ms: 100,
        pointer_x: Some(0),
        drop_requested: true,
        restart_requested: false,
    };
    let out = tick(&mut world, input, &vec![(0, 1)]);
    assert_eq!(world.state, AppState::Lost);
    assert!(out.merges.is_empty());
    assert!(out.drop_outcome.is_none());
    assert!(!out.restarted);
    assert_eq!(world.registry.settled_count(), settled_before);
    assert_eq!(world.registry.preview_index(), None);
}

#[test]
fn restart_resets_the_session() {
    let mut world = lost_world();
    let input = TickInput {
        elapsed_ms: 0,
        pointer_x: Some(30),
        drop_requested: false,
        restart_requested: true,
    };
    let out = tick(&mut world, input, &vec![]);
    assert!(out.restarted);
    assert_eq!(world.state, AppState::Playing);
    assert_eq!(world.registry.settled_count(), 0);
    assert_eq!(world.registry.len(), 1);
    let i = world.registry.preview_index().unwrap();
    assert!(world.registry.get(i).is_preview);
    // the cooldown is ready at once: the next drop request commits
    assert_eq!(world.session.cooldown_ms, 0);
    let drop_input = TickInput {
        elapsed_ms: 16,
        pointer_x: Some(30),
        drop_requested: true,
        restart_requested: false,
    };
    let out2 = tick(&mut world, drop_input, &vec![]);
    assert!(matches!(out2.drop_outcome, Some(DropOutcome::Committed { .. })));
    assert_eq!(world.registry.settled_count(), 1);
}

#[test]
fn restart_request_is_ignored_while_playing() {
    let mut world = playing_world(500, FruitType::Blueberry);
    assert_eq!(world.registry.spawn(FruitType::Lemon, 0, 0, false), Ok(0));
    let input = TickInput {
        elapsed_ms: 0,
        pointer_x: None,
        drop_requested: false,
        restart_requested: true,
    };
    let out = tick(&mut world, input, &vec![]);
    assert!(!out.restarted);
    assert_eq!(world.state, AppState::Playing);
    assert_eq!(world.registry.settled_count(), 1);
}
