use suika_core::fruit_type::FruitType;

#[test]
fn sizes_match_the_tier_table() {
    assert_eq!(FruitType::Blueberry.size(), 30);
    assert_eq!(FruitType::Strawberry.size(), 50);
    assert_eq!(FruitType::Grapes.size(), 70);
    assert_eq!(FruitType::Lemon.size(), 100);
    assert_eq!(FruitType::Coconut.size(), 120);
    assert_eq!(FruitType::Apple.size(), 150);
    assert_eq!(FruitType::Orange.size(), 180);
    assert_eq!(FruitType::Pomegranate.size(), 210);
    assert_eq!(FruitType::Peach.size(), 240);
    assert_eq!(FruitType::Pineapple.size(), 270);
    assert_eq!(FruitType::Melon.size(), 300);
    assert_eq!(FruitType::Watermelon.size(), 330);
}

#[test]
fn merge_chain_follows_the_order() {
    assert_eq!(FruitType::Blueberry.merge(), Some(FruitType::Strawberry));
    assert_eq!(FruitType::Strawberry.merge(), Some(FruitType::Grapes));
    assert_eq!(FruitType::Grapes.merge(), Some(FruitType::Lemon));
    assert_eq!(FruitType::Lemon.merge(), Some(FruitType::Coconut));
    assert_eq!(FruitType::Coconut.merge(), Some(FruitType::Apple));
    assert_eq!(FruitType::Apple.merge(), Some(FruitType::Orange));
    assert_eq!(FruitType::Orange.merge(), Some(FruitType::Pomegranate));
    assert_eq!(FruitType::Pomegranate.merge(), Some(FruitType::Peach));
    assert_eq!(FruitType::Peach.merge(), Some(FruitType::Pineapple));
    assert_eq!(FruitType::Pineapple.merge(), Some(FruitType::Melon));
    assert_eq!(FruitType::Melon.merge(), Some(FruitType::Watermelon));
    assert_eq!(FruitType::Watermelon.merge(), None);
}

#[test]
fn diameters_increase_along_the_chain() {
    let mut t = FruitType::Blueberry;
    while let Some(next) = t.merge() {
        assert!(next.size() > t.size());
        t = next;
    }
    assert_eq!(t, FruitType::Watermelon);
}

#[test]
fn from_draw_maps_residues_onto_the_low_kinds() {
    assert_eq!(FruitType::from_draw(0), FruitType::Blueberry);
    assert_eq!(FruitType::from_draw(1), FruitType::Strawberry);
    assert_eq!(FruitType::from_draw(2), FruitType::Grapes);
    assert_eq!(FruitType::from_draw(3), FruitType::Lemon);
    assert_eq!(FruitType::from_draw(4), FruitType::Coconut);
    assert_eq!(FruitType::from_draw(5), FruitType::Blueberry);
    assert_eq!(FruitType::from_draw(7), FruitType::Grapes);
    assert_eq!(FruitType::from_draw(255), FruitType::Blueberry);
}

#[test]
fn random_draws_only_the_low_kinds() {
    for _ in 0..64 {
        let t = FruitType::random();
        assert!(matches!(
            t,
            FruitType::Blueberry
                | FruitType::Strawberry
                | FruitType::Grapes
                | FruitType::Lemon
                | FruitType::Coconut
        ));
    }
}
