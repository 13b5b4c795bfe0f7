use suika_core::fruit_type::FruitType;
use suika_core::registry::{PieceRegistry, RegistryError};

#[test]
fn spawn_assigns_fresh_ids_in_order() {
    let mut reg = PieceRegistry::new();
    assert_eq!(reg.spawn(FruitType::Blueberry, 0, 0, false), Ok(0));
    assert_eq!(reg.spawn(FruitType::Lemon, 10, 0, false), Ok(1));
    assert_eq!(reg.spawn(FruitType::Grapes, 20, 0, true), Ok(2));
    assert_eq!(reg.len(), 3);
    assert_eq!(reg.get(0).fruit.0, FruitType::Blueberry);
    assert_eq!(reg.get(1).x, 10);
    assert!(reg.get(2).is_preview);
    assert!(!reg.get(0).has_collided);
}

#[test]
fn second_preview_is_rejected() {
    let mut reg = PieceRegistry::new();
    assert_eq!(reg.spawn(FruitType::Blueberry, 0, 200, true), Ok(0));
    assert_eq!(
        reg.spawn(FruitType::Strawberry, 5, 200, true),
        Err(RegistryError::PreviewExists)
    );
    // the refused spawn is a no-op: the registry is unchanged
    assert_eq!(reg.len(), 1);
    assert_eq!(reg.preview_index(), Some(0));
    // a settled spawn is still fine
    assert_eq!(reg.spawn(FruitType::Strawberry, 5, 200, false), Ok(1));
}

#[test]
fn promote_errors_name_the_cause() {
    let mut reg = PieceRegistry::new();
    assert_eq!(reg.spawn(FruitType::Blueberry, 0, 0, false), Ok(0));
    assert_eq!(reg.spawn(FruitType::Grapes, 30, 200, true), Ok(1));
    assert_eq!(
        reg.promote_preview_to_settled(99, 0, 0),
        Err(RegistryError::NoSuchPiece)
    );
    assert_eq!(
        reg.promote_preview_to_settled(0, 0, 0),
        Err(RegistryError::NotPreview)
    );
    assert_eq!(reg.promote_preview_to_settled(1, 40, 200), Ok(()));
    let i = reg.find_index(1).unwrap();
    let p = *reg.get(i);
    assert!(!p.is_preview);
    assert_eq!(p.x, 40);
    assert_eq!(p.y, 200);
    assert_eq!(p.fruit.0, FruitType::Grapes);
    assert_eq!(reg.preview_index(), None);
}

#[test]
fn destroy_removes_the_piece_and_clears_the_preview() {
    let mut reg = PieceRegistry::new();
    assert_eq!(reg.spawn(FruitType::Blueberry, 0, 0, false), Ok(0));
    assert_eq!(reg.spawn(FruitType::Grapes, 30, 200, true), Ok(1));
    assert!(reg.destroy(1));
    assert_eq!(reg.preview_index(), None);
    assert_eq!(reg.len(), 1);
    // destroying a dead identifier is a defined no-op
    assert!(!reg.destroy(1));
    assert!(!reg.destroy(77));
    assert_eq!(reg.len(), 1);
    // identifiers are never reused
    assert_eq!(reg.spawn(FruitType::Lemon, 0, 0, false), Ok(2));
}

#[test]
fn mutate_tier_changes_the_kind_in_place() {
    let mut reg = PieceRegistry::new();
    assert_eq!(reg.spawn(FruitType::Blueberry, 7, 9, false), Ok(0));
    assert!(reg.mutate_tier(0, FruitType::Strawberry));
    let p = *reg.get(0);
    assert_eq!(p.fruit.0, FruitType::Strawberry);
    assert_eq!((p.x, p.y), (7, 9));
    assert!(!reg.mutate_tier(5, FruitType::Melon));
}

#[test]
fn set_x_moves_a_piece_horizontally() {
    let mut reg = PieceRegistry::new();
    assert_eq!(reg.spawn(FruitType::Blueberry, 0, 200, true), Ok(0));
    assert!(reg.set_x(0, -123));
    assert_eq!(reg.get(0).x, -123);
    assert_eq!(reg.get(0).y, 200);
    assert!(!reg.set_x(9, 0));
}

#[test]
fn settled_count_and_iter_exclude_the_preview() {
    let mut reg = PieceRegistry::new();
    assert_eq!(reg.spawn(FruitType::Blueberry, 0, 0, false), Ok(0));
    assert_eq!(reg.spawn(FruitType::Lemon, 10, 0, false), Ok(1));
    assert_eq!(reg.spawn(FruitType::Grapes, 20, 200, true), Ok(2));
    assert_eq!(reg.settled_count(), 2);
    let settled = reg.iter_settled();
    assert_eq!(settled.len(), 2);
    assert_eq!(settled[0].id, 0);
    assert_eq!(settled[1].id, 1);
    reg.clear();
    assert_eq!(reg.len(), 0);
    assert_eq!(reg.settled_count(), 0);
}
