use suika_core::collisions::handle_collisions;
use suika_core::fruit_type::FruitType;
use suika_core::registry::PieceRegistry;

#[test]
fn two_smallest_pieces_merge_into_one() {
    // two settled tier-0 pieces in active contact, none previously collided
    let mut reg = PieceRegistry::new();
    assert_eq!(reg.spawn(FruitType::Blueberry, -10, -280, false), Ok(0));
    assert_eq!(reg.spawn(FruitType::Blueberry, 15, -280, false), Ok(1));
    let events = handle_collisions(&mut reg, &vec![(0, 1)]);
    assert_eq!(events.len(), 1);
    assert_eq!(events[0].id, 0);
    assert_eq!(events[0].tier, FruitType::Strawberry);
    assert_eq!((events[0].x, events[0].y), (-10, -280));
    assert_eq!(reg.settled_count(), 1);
    assert!(reg.find_index(1).is_none());
    let survivor = *reg.get(reg.find_index(0).unwrap());
    assert_eq!(survivor.fruit.0, FruitType::Strawberry);
    assert!(survivor.has_collided);
    assert_eq!((survivor.x, survivor.y), (-10, -280));
}

#[test]
fn maximal_tier_does_not_merge() {
    let mut reg = PieceRegistry::new();
    assert_eq!(reg.spawn(FruitType::Watermelon, -100, -100, false), Ok(0));
    assert_eq!(reg.spawn(FruitType::Watermelon, 230, -100, false), Ok(1));
    let events = handle_collisions(&mut reg, &vec![(0, 1)]);
    assert!(events.is_empty());
    assert_eq!(reg.settled_count(), 2);
    let a = *reg.get(reg.find_index(0).unwrap());
    let b = *reg.get(reg.find_index(1).unwrap());
    assert_eq!(a.fruit.0, FruitType::Watermelon);
    assert_eq!(b.fruit.0, FruitType::Watermelon);
    assert!(a.has_collided && b.has_collided);
}

#[test]
fn repeated_and_reversed_reports_merge_once() {
    let mut reg = PieceRegistry::new();
    assert_eq!(reg.spawn(FruitType::Lemon, 0, 0, false), Ok(0));
    assert_eq!(reg.spawn(FruitType::Lemon, 90, 0, false), Ok(1));
    let events = handle_collisions(&mut reg, &vec![(0, 1), (1, 0), (0, 1)]);
    assert_eq!(events.len(), 1);
    assert_eq!(reg.settled_count(), 1);
}

#[test]
fn different_tiers_only_flag_contact() {
    let mut reg = PieceRegistry::new();
    assert_eq!(reg.spawn(FruitType::Blueberry, 0, 0, false), Ok(0));
    assert_eq!(reg.spawn(FruitType::Strawberry, 35, 0, false), Ok(1));
    let events = handle_collisions(&mut reg, &vec![(0, 1)]);
    assert!(events.is_empty());
    assert_eq!(reg.settled_count(), 2);
    assert!(reg.get(0).has_collided);
    assert!(reg.get(1).has_collided);
    assert_eq!(reg.get(0).fruit.0, FruitType::Blueberry);
    assert_eq!(reg.get(1).fruit.0, FruitType::Strawberry);
}

#[test]
fn dead_and_self_pairs_are_skipped() {
    let mut reg = PieceRegistry::new();
    assert_eq!(reg.spawn(FruitType::Blueberry, 0, 0, false), Ok(0));
    let events = handle_collisions(&mut reg, &vec![(0, 0), (0, 99), (42, 43)]);
    assert!(events.is_empty());
    assert_eq!(reg.settled_count(), 1);
    assert!(!reg.get(0).has_collided);
}

#[test]
fn preview_never_takes_part_in_contacts() {
    let mut reg = PieceRegistry::new();
    assert_eq!(reg.spawn(FruitType::Grapes, 0, 0, false), Ok(0));
    assert_eq!(reg.spawn(FruitType::Grapes, 10, 200, true), Ok(1));
    let events = handle_collisions(&mut reg, &vec![(0, 1)]);
    assert!(events.is_empty());
    assert!(!reg.get(0).has_collided);
    assert!(!reg.get(1).has_collided);
    assert_eq!(reg.settled_count(), 1);
}

#[test]
fn a_piece_merges_at_most_once_per_pass() {
    // three same-tier pieces; after the first merge destroys piece 1, the
    // pair naming it is a lookup miss and is skipped
    let mut reg = PieceRegistry::new();
    assert_eq!(reg.spawn(FruitType::Blueberry, 0, 0, false), Ok(0));
    assert_eq!(reg.spawn(FruitType::Blueberry, 25, 0, false), Ok(1));
    assert_eq!(reg.spawn(FruitType::Blueberry, 50, 0, false), Ok(2));
    let events = handle_collisions(&mut reg, &vec![(0, 1), (1, 2)]);
    assert_eq!(events.len(), 1);
    assert_eq!(events[0].id, 0);
    assert_eq!(reg.settled_count(), 2);
    let third = *reg.get(reg.find_index(2).unwrap());
    assert_eq!(third.fruit.0, FruitType::Blueberry);
    assert!(!third.has_collided);
}

#[test]
fn independent_pairs_both_merge_in_one_pass() {
    let mut reg = PieceRegistry::new();
    assert_eq!(reg.spawn(FruitType::Blueberry, 0, 0, false), Ok(0));
    assert_eq!(reg.spawn(FruitType::Blueberry, 25, 0, false), Ok(1));
    assert_eq!(reg.spawn(FruitType::Coconut, 200, 0, false), Ok(2));
    assert_eq!(reg.spawn(FruitType::Coconut, 310, 0, false), Ok(3));
    let events = handle_collisions(&mut reg, &vec![(0, 1), (2, 3)]);
    assert_eq!(events.len(), 2);
    assert_eq!(events[0].tier, FruitType::Strawberry);
    assert_eq!(events[1].tier, FruitType::Apple);
    assert_eq!(reg.settled_count(), 2);
}

#[test]
fn collided_flag_outlives_later_passes() {
    // the flag is monotone: once set it stays until the piece is destroyed
    let mut reg = PieceRegistry::new();
    assert_eq!(reg.spawn(FruitType::Blueberry, 0, 0, false), Ok(0));
    assert_eq!(reg.spawn(FruitType::Strawberry, 30, 0, false), Ok(1));
    handle_collisions(&mut reg, &vec![(0, 1)]);
    assert!(reg.get(0).has_collided);
    // later passes with unrelated or dead pairs do not clear it
    handle_collisions(&mut reg, &vec![(5, 6)]);
    handle_collisions(&mut reg, &vec![]);
    assert!(reg.get(0).has_collided);
    // nor do later mutations of the piece
    assert!(reg.set_x(0, 70));
    assert!(reg.mutate_tier(0, FruitType::Blueberry));
    assert!(reg.get(reg.find_index(0).unwrap()).has_collided);
}
