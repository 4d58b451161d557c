use game::world::wall::{group_walls_by_layer, wall_key, wall_rects, GridCoords, WallRect};

fn tiles(cells: &[(i32, i32)]) -> Vec<GridCoords> {
    cells.iter().map(|&(x, y)| GridCoords { x, y }).collect()
}

fn rect(left: i32, right: i32, bottom: i32, top: i32) -> WallRect {
    WallRect { left, right, top, bottom }
}

#[test]
fn single_tile_is_one_rect() {
    let rects = wall_rects(4, 4, &tiles(&[(1, 2)]));
    assert_eq!(rects, vec![rect(1, 1, 2, 2)]);
}

#[test]
fn no_walls_no_rects() {
    assert!(wall_rects(5, 5, &Vec::new()).is_empty());
}

#[test]
fn row_runs_become_plates() {
    // Row 0: tiles 0..=2 and 4..=5, with a gap at 3.
    let rects = wall_rects(8, 1, &tiles(&[(0, 0), (1, 0), (2, 0), (4, 0), (5, 0)]));
    assert_eq!(rects, vec![rect(0, 2, 0, 0), rect(4, 5, 0, 0)]);
}

#[test]
fn equal_plates_stack_into_one_rect() {
    let rects = wall_rects(
        4,
        4,
        &tiles(&[(1, 0), (2, 0), (1, 1), (2, 1), (1, 2), (2, 2)]),
    );
    assert_eq!(rects, vec![rect(1, 2, 0, 2)]);
}

#[test]
fn different_plates_do_not_stack() {
    // An L shape: a wide base and a narrow column on its left end.
    let rects = wall_rects(4, 3, &tiles(&[(0, 0), (1, 0), (2, 0), (0, 1), (0, 2)]));
    assert_eq!(rects, vec![rect(0, 2, 0, 0), rect(0, 0, 1, 2)]);
}

#[test]
fn rects_touching_the_top_are_finished() {
    let rects = wall_rects(2, 2, &tiles(&[(0, 0), (1, 0), (0, 1), (1, 1)]));
    assert_eq!(rects, vec![rect(0, 1, 0, 1)]);
}

#[test]
fn rects_come_ordered_by_top_then_left() {
    // A tall column at x = 3 and two short ones at x = 0 and x = 5.
    let rects = wall_rects(
        7,
        3,
        &tiles(&[(3, 0), (3, 1), (3, 2), (0, 0), (5, 0)]),
    );
    assert_eq!(rects, vec![rect(0, 0, 0, 0), rect(5, 5, 0, 0), rect(3, 3, 0, 2)]);
}

#[test]
fn same_plate_after_a_gap_starts_a_new_rect() {
    let rects = wall_rects(3, 3, &tiles(&[(1, 0), (1, 2)]));
    assert_eq!(rects, vec![rect(1, 1, 0, 0), rect(1, 1, 2, 2)]);
}

#[test]
fn run_reaching_past_the_last_column_is_dropped() {
    // A wall at x == width keeps the run open past the end of the scan.
    let rects = wall_rects(3, 1, &tiles(&[(1, 0), (2, 0), (3, 0)]));
    assert!(rects.is_empty());
    // Without it, the run ends at the last column.
    let rects = wall_rects(3, 1, &tiles(&[(1, 0), (2, 0)]));
    assert_eq!(rects, vec![rect(1, 2, 0, 0)]);
}

#[test]
fn tiles_outside_the_level_are_ignored() {
    let rects = wall_rects(2, 2, &tiles(&[(-1, 0), (0, -1), (0, 5), (1, 1)]));
    assert_eq!(rects, vec![rect(1, 1, 1, 1)]);
}

#[test]
fn negative_size_gives_no_rects() {
    assert!(wall_rects(-3, 2, &tiles(&[(0, 0)])).is_empty());
    assert!(wall_rects(2, -3, &tiles(&[(0, 0)])).is_empty());
}

#[test]
fn duplicate_tiles_count_once() {
    let rects = wall_rects(2, 1, &tiles(&[(0, 0), (0, 0)]));
    assert_eq!(rects, vec![rect(0, 0, 0, 0)]);
}

#[test]
fn rects_cover_walls_exactly_once() {
    // A ragged blob: every wall tile lies in exactly one rectangle.
    let cells = [
        (0, 0), (1, 0), (2, 0), (3, 0),
        (1, 1), (2, 1),
        (1, 2), (2, 2), (3, 2),
        (0, 3), (3, 3),
    ];
    let walls = tiles(&cells);
    let rects = wall_rects(5, 4, &walls);
    for y in 0..4 {
        for x in 0..5 {
            let covering = rects
                .iter()
                .filter(|r| r.left <= x && x <= r.right && r.bottom <= y && y <= r.top)
                .count();
            let is_wall = cells.contains(&(x, y));
            assert_eq!(covering, if is_wall { 1 } else { 0 }, "tile ({x}, {y})");
        }
    }
}

#[test]
fn wall_keys_tell_positions_apart() {
    assert_ne!(wall_key(1, 0), wall_key(0, 1));
    assert_ne!(wall_key(-1, 0), wall_key(i32::MAX, -1));
    assert_eq!(wall_key(i32::MIN, i32::MIN), 0);
    assert_eq!(wall_key(i32::MAX, i32::MAX), u64::MAX);
    assert_eq!(wall_key(3, 5), wall_key(3, 5));
}

#[test]
fn walls_group_by_layer() {
    let entries = vec![
        (7u64, GridCoords { x: 0, y: 0 }),
        (9u64, GridCoords { x: 1, y: 1 }),
        (7u64, GridCoords { x: 2, y: 0 }),
        (7u64, GridCoords { x: 0, y: 0 }),
    ];
    let groups = group_walls_by_layer(&entries);
    assert_eq!(groups.len(), 2);
    let seven = groups.iter().find(|g| g.layer == 7).unwrap();
    let nine = groups.iter().find(|g| g.layer == 9).unwrap();
    assert!(seven.walls.contains(&GridCoords { x: 0, y: 0 }));
    assert!(seven.walls.contains(&GridCoords { x: 2, y: 0 }));
    assert!(!seven.walls.contains(&GridCoords { x: 1, y: 1 }));
    assert_eq!(nine.walls, vec![GridCoords { x: 1, y: 1 }]);
}

#[test]
fn no_walls_no_groups() {
    assert!(group_walls_by_layer(&Vec::new()).is_empty());
}
