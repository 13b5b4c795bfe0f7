use suika_core::drop_control::clamp_to_bounds;
use suika_core::fruit_type::FruitType;

#[test]
fn centre_positions_pass_through() {
    assert_eq!(clamp_to_bounds(0, &FruitType::Blueberry), 0);
    assert_eq!(clamp_to_bounds(-200, &FruitType::Watermelon), -200);
    assert_eq!(clamp_to_bounds(123, &FruitType::Lemon), 123);
}

#[test]
fn extremes_clamp_to_the_kind_band() {
    // left wall -400, thickness 10, margin 10: the band for a kind of
    // half-diameter h is [-380 + h, 380 - h]
    assert_eq!(clamp_to_bounds(-10000, &FruitType::Blueberry), -365);
    assert_eq!(clamp_to_bounds(10000, &FruitType::Blueberry), 365);
    assert_eq!(clamp_to_bounds(-10000, &FruitType::Watermelon), -215);
    assert_eq!(clamp_to_bounds(10000, &FruitType::Watermelon), 215);
    assert_eq!(clamp_to_bounds(i32::MIN, &FruitType::Grapes), -345);
    assert_eq!(clamp_to_bounds(i32::MAX, &FruitType::Grapes), 345);
}

#[test]
fn clamping_keeps_every_kind_inside_the_walls() {
    let kinds = vec![
        FruitType::Blueberry,
        FruitType::Strawberry,
        FruitType::Grapes,
        FruitType::Lemon,
        FruitType::Coconut,
        FruitType::Apple,
        FruitType::Orange,
        FruitType::Pomegranate,
        FruitType::Peach,
        FruitType::Pineapple,
        FruitType::Melon,
        FruitType::Watermelon,
    ];
    for kind in &kinds {
        let half = (kind.size() / 2) as i32;
        let mut x = -1200;
        while x <= 1200 {
            let clamped = clamp_to_bounds(x, kind);
            assert!(clamped - half >= -400 + 10);
            assert!(clamped + half <= 400 - 10);
            x += 37;
        }
    }
}
