use game::world::foliage::{foliage_sensor_targets, foliage_step, FoliageTimer};
use game::world::level::LevelLayer;
use game::world::platform::{platform_side, PlatformSide};
use game::world::vines::overlapping_vine;
use game::world::wall::GridCoords;
use std::collections::HashSet;

#[test]
fn layer_names() {
    assert_eq!(LevelLayer::Background.as_str(), "Background");
    assert_eq!(LevelLayer::Collision.as_str(), "Collision");
    assert_eq!(LevelLayer::Foreground.as_str(), "Foreground");
    assert_eq!(LevelLayer::Foreground.auto_layer_identifier(), "Foreground_AL");
    assert_eq!(LevelLayer::Collision.auto_layer_identifier(), "Collision_AL");
}

#[test]
fn auto_layer_recognised_by_name() {
    assert!(LevelLayer::Foreground.is_auto_layer(&"Foreground_AL".to_string()));
    assert!(!LevelLayer::Foreground.is_auto_layer(&"Foreground".to_string()));
    assert!(!LevelLayer::Background.is_auto_layer(&"Foreground_AL".to_string()));
}

#[test]
fn platform_sides() {
    assert_eq!(platform_side(true, true), Some(PlatformSide::First));
    assert_eq!(platform_side(true, false), Some(PlatformSide::First));
    assert_eq!(platform_side(false, true), Some(PlatformSide::Second));
    assert_eq!(platform_side(false, false), None);
}

#[test]
fn first_intersecting_vine_wins() {
    let player = 1u64;
    let vines: HashSet<u64> = [10u64, 11u64].into_iter().collect();
    // Not intersecting, not a vine, then two vines.
    let pairs = vec![(player, 10, false), (5, player, true), (11, player, true), (player, 10, true)];
    assert_eq!(overlapping_vine(&pairs, player, &vines), Some(11));
    let pairs = vec![(player, 10, false), (5, player, true)];
    assert_eq!(overlapping_vine(&pairs, player, &vines), None);
    assert_eq!(overlapping_vine(&Vec::new(), player, &vines), None);
}

#[test]
fn foliage_fade_turns_on_changes() {
    let s = foliage_step(false, false, true);
    assert_eq!(s.timer, FoliageTimer::Keep);
    assert!(!s.intersecting);
    let s = foliage_step(false, true, true);
    assert_eq!(s.timer, FoliageTimer::Restart);
    assert!(s.intersecting);
    let s = foliage_step(true, false, false);
    assert_eq!(s.timer, FoliageTimer::Mirror);
    assert!(!s.intersecting);
    let s = foliage_step(true, true, false);
    assert_eq!(s.timer, FoliageTimer::Keep);
}

#[test]
fn foliage_finds_the_last_tile_at_its_position() {
    let at = |x, y| GridCoords { x, y };
    let tiles = vec![(at(0, 0), 100u64), (at(1, 0), 101u64), (at(0, 0), 102u64)];
    let foliage = vec![at(0, 0), at(2, 2), at(1, 0)];
    let targets = foliage_sensor_targets(&tiles, &foliage);
    assert_eq!(targets, vec![Some(102), None, Some(101)]);
    assert!(foliage_sensor_targets(&tiles, &Vec::new()).is_empty());
}
