//! Foliage tiles that fade while something passes through them.

use crate::world::wall::{GridCoords, cell_key, in_i32, lemma_cell_key_injective, lemma_cell_key_range, wall_key};
use std::collections::HashMap;
use vstd::prelude::*;

verus! {

broadcast use vstd::std_specs::hash::group_hash_axioms;

/// What happens to a foliage sensor's fade timer.
#[derive(Clone, Copy, PartialEq, Eq, Structural, Debug)]
pub enum FoliageTimer {
    /// Leave the timer alone.
    Keep,
    /// The last fade had ended: fade anew from the start.
    Restart,
    /// A fade is under way: turn it around, setting the elapsed time to the
    /// time that remained.
    Mirror,
}

/// A foliage sensor's decision for a frame.
#[derive(Clone, Copy, Debug)]
pub struct FoliageStep {
    pub timer: FoliageTimer,
    /// Whether something intersects the sensor, as recorded from now on.
    pub intersecting: bool,
}

/// `step` is a foliage sensor's decision, as [`foliage_step`] takes it.
pub open spec fn is_foliage_step(
    was_intersecting: bool,
    intersecting: bool,
    timer_finished: bool,
    step: FoliageStep,
) -> bool {
    &&& step.intersecting == intersecting
    &&& step.timer == (if intersecting == was_intersecting {
        FoliageTimer::Keep
    } else if timer_finished {
        FoliageTimer::Restart
    } else {
        FoliageTimer::Mirror
    })
}

/// The fade timer is touched exactly when what intersects the sensor
/// changes: a finished fade restarts, one under way turns around. The change
/// is recorded, so a next frame that sees the same leaves the timer alone.
pub proof fn lemma_foliage_reacts_to_changes_once(
    was_intersecting: bool,
    intersecting: bool,
    timer_finished: bool,
    step: FoliageStep,
    next_timer_finished: bool,
    next: FoliageStep,
)
    requires
        is_foliage_step(was_intersecting, intersecting, timer_finished, step),
        is_foliage_step(step.intersecting, intersecting, next_timer_finished, next),
    ensures
        (step.timer == FoliageTimer::Keep) <==> (intersecting == was_intersecting),
        intersecting != was_intersecting && timer_finished ==> step.timer == FoliageTimer::Restart,
        intersecting != was_intersecting && !timer_finished ==> step.timer == FoliageTimer::Mirror,
        next.timer == FoliageTimer::Keep,
        next.intersecting == step.intersecting,
{
}

/// Reacts to what intersects a foliage sensor: when that changes, the fade
/// towards the new look starts, or, midway through a fade, turns around.
pub fn foliage_step(was_intersecting: bool, intersecting: bool, timer_finished: bool) -> (step:
    FoliageStep)
    ensures
        is_foliage_step(was_intersecting, intersecting, timer_finished, step),
{
    let timer = if intersecting != was_intersecting {
        if timer_finished {
            FoliageTimer::Restart
        } else {
            FoliageTimer::Mirror
        }
    } else {
        FoliageTimer::Keep
    };
    FoliageStep { timer, intersecting }
}

/// The entity of the last of `tiles` at `(x, y)`, if any.
pub open spec fn last_tile_at(tiles: Seq<(GridCoords, u64)>, x: int, y: int) -> Option<u64>
    decreases tiles.len(),
{
    if tiles.len() == 0 {
        None
    } else if tiles.last().0.x == x && tiles.last().0.y == y {
        Some(tiles.last().1)
    } else {
        last_tile_at(tiles.drop_last(), x, y)
    }
}

/// `targets` holds, for each of `foliage`, the last of `tiles` at its
/// position, if any.
pub open spec fn are_sensor_targets(
    tiles: Seq<(GridCoords, u64)>,
    foliage: Seq<GridCoords>,
    targets: Seq<Option<u64>>,
) -> bool {
    &&& targets.len() == foliage.len()
    &&& forall|i: int|
        0 <= i < foliage.len() ==> #[trigger] targets[i] == last_tile_at(
            tiles,
            foliage[i].x as int,
            foliage[i].y as int,
        )
}

/// For each foliage tile, the tile that becomes its sensor: among `tiles`
/// (the drawn tiles of the foreground auto layer, each with its entity),
/// the last one at the same position, if any.
pub fn foliage_sensor_targets(tiles: &Vec<(GridCoords, u64)>, foliage: &Vec<GridCoords>) -> (targets:
    Vec<Option<u64>>)
    ensures
        are_sensor_targets(tiles@, foliage@, targets@),
{
    let mut by_position: HashMap<u64, u64> = HashMap::new();
    let n = tiles.len();
    let mut i: usize = 0;
    while i < n
        invariant
            n == tiles@.len(),
            i <= n,
            forall|x: int, y: int|
                in_i32(x) && in_i32(y) ==> (match #[trigger] last_tile_at(tiles@.take(i as int), x, y) {
                    Some(e) => by_position@.contains_key(cell_key(x, y) as u64) && by_position@[cell_key(x, y) as u64] == e,
                    None => !by_position@.contains_key(cell_key(x, y) as u64),
                }),
        decreases n - i,
    {
        let (c, e) = tiles[i];
        let k = wall_key(c.x, c.y);
        let ghost before = by_position@;
        by_position.insert(k, e);
        proof {
            lemma_cell_key_range(c.x as int, c.y as int);
            let prefix = tiles@.take(i + 1);
            assert(prefix.drop_last() =~= tiles@.take(i as int));
            assert(prefix.last() == (c, e));
            assert forall|x: int, y: int| in_i32(x) && in_i32(y) implies (match #[trigger] last_tile_at(
                tiles@.take(i + 1),
                x,
                y,
            ) {
                Some(e2) => by_position@.contains_key(cell_key(x, y) as u64) && by_position@[cell_key(x, y) as u64] == e2,
                None => !by_position@.contains_key(cell_key(x, y) as u64),
            }) by {
                lemma_cell_key_range(x, y);
                if !(x == c.x && y == c.y) {
                    assert(last_tile_at(prefix, x, y) == last_tile_at(tiles@.take(i as int), x, y));
                    if cell_key(x, y) == cell_key(c.x as int, c.y as int) {
                        lemma_cell_key_injective(x, y, c.x as int, c.y as int);
                    }
                }
            }
        }
        i = i + 1;
    }
    assert(tiles@.take(n as int) =~= tiles@);
    let mut targets: Vec<Option<u64>> = Vec::new();
    let m = foliage.len();
    let mut j: usize = 0;
    while j < m
        invariant
            m == foliage@.len(),
            j <= m,
            targets@.len() == j,
            tiles@.take(n as int) == tiles@,
            forall|x: int, y: int|
                in_i32(x) && in_i32(y) ==> (match #[trigger] last_tile_at(tiles@.take(n as int), x, y) {
                    Some(e) => by_position@.contains_key(cell_key(x, y) as u64) && by_position@[cell_key(x, y) as u64] == e,
                    None => !by_position@.contains_key(cell_key(x, y) as u64),
                }),
            forall|a: int|
                0 <= a < j ==> #[trigger] targets@[a] == last_tile_at(
                    tiles@,
                    foliage@[a].x as int,
                    foliage@[a].y as int,
                ),
        decreases m - j,
    {
        let c = foliage[j];
        let k = wall_key(c.x, c.y);
        proof {
            lemma_cell_key_range(c.x as int, c.y as int);
        }
        let target = match by_position.get(&k) {
            Some(e) => Some(*e),
            None => None,
        };
        assert(last_tile_at(tiles@.take(n as int), c.x as int, c.y as int) == target);
        targets.push(target);
        j = j + 1;
    }
    targets
}

/// The last of `tiles` at `(x, y)` is a tile at exactly that position with no
/// later one there; there is none only when no tile stands there.
proof fn lemma_last_tile_at(tiles: Seq<(GridCoords, u64)>, x: int, y: int)
    ensures
        match last_tile_at(tiles, x, y) {
            Some(e) => exists|k: int|
                0 <= k < tiles.len() && (#[trigger] tiles[k]).0.x == x && tiles[k].0.y == y
                    && tiles[k].1 == e && forall|j: int|
                    k < j < tiles.len() ==> !((#[trigger] tiles[j]).0.x == x && tiles[j].0.y == y),
            None => forall|k: int|
                0 <= k < tiles.len() ==> !((#[trigger] tiles[k]).0.x == x && tiles[k].0.y == y),
        },
    decreases tiles.len(),
{
    if tiles.len() > 0 {
        let rest = tiles.drop_last();
        lemma_last_tile_at(rest, x, y);
        let last = tiles.len() - 1;
        if tiles.last().0.x == x && tiles.last().0.y == y {
            assert(tiles[last].0.x == x && tiles[last].0.y == y);
        } else {
            assert forall|k: int| 0 <= k < rest.len() implies #[trigger] rest[k] == tiles[k] by {}
            match last_tile_at(rest, x, y) {
                Some(e) => {
                    let k = choose|k: int|
                        0 <= k < rest.len() && (#[trigger] rest[k]).0.x == x && rest[k].0.y == y
                            && rest[k].1 == e && forall|j: int|
                            k < j < rest.len() ==> !((#[trigger] rest[j]).0.x == x && rest[j].0.y == y);
                    assert(tiles[k] == rest[k]);
                    assert forall|j: int|
                        k < j < tiles.len() implies !((#[trigger] tiles[j]).0.x == x && tiles[j].0.y == y) by {
                        if j < last {
                            assert(tiles[j] == rest[j]);
                        }
                    }
                },
                None => {
                    assert forall|k: int|
                        0 <= k < tiles.len() implies !((#[trigger] tiles[k]).0.x == x && tiles[k].0.y == y) by {
                        if k < last {
                            assert(tiles[k] == rest[k]);
                        }
                    }
                },
            }
        }
    }
}

/// Each foliage tile's sensor is a tile at exactly its position (same
/// column and same row), with no later tile there; a tile elsewhere, such as
/// one in another row of the same column, is never picked. A foliage tile
/// gets no sensor only when no tile stands at its position.
pub proof fn lemma_sensor_at_same_position(
    tiles: Seq<(GridCoords, u64)>,
    foliage: Seq<GridCoords>,
    targets: Seq<Option<u64>>,
)
    requires
        are_sensor_targets(tiles, foliage, targets),
    ensures
        forall|i: int|
            0 <= i < foliage.len() ==> match #[trigger] targets[i] {
                Some(e) => exists|k: int|
                    0 <= k < tiles.len() && #[trigger] tiles[k].0 == foliage[i] && tiles[k].1 == e
                        && forall|j: int| k < j < tiles.len() ==> (#[trigger] tiles[j]).0 != foliage[i],
                None => forall|k: int| 0 <= k < tiles.len() ==> (#[trigger] tiles[k]).0 != foliage[i],
            },
        forall|i: int, k: int|
            0 <= i < foliage.len() && 0 <= k < tiles.len() && (#[trigger] tiles[k]).0 == foliage[i]
                ==> #[trigger] targets[i] is Some,
{
    assert forall|i: int| 0 <= i < foliage.len() implies match #[trigger] targets[i] {
        Some(e) => exists|k: int|
            0 <= k < tiles.len() && #[trigger] tiles[k].0 == foliage[i] && tiles[k].1 == e
                && forall|j: int| k < j < tiles.len() ==> (#[trigger] tiles[j]).0 != foliage[i],
        None => forall|k: int| 0 <= k < tiles.len() ==> (#[trigger] tiles[k]).0 != foliage[i],
    } by {
        let c = foliage[i];
        lemma_last_tile_at(tiles, c.x as int, c.y as int);
        match targets[i] {
            Some(e) => {
                let k = choose|k: int|
                    0 <= k < tiles.len() && (#[trigger] tiles[k]).0.x == c.x && tiles[k].0.y == c.y
                        && tiles[k].1 == e && forall|j: int|
                        k < j < tiles.len() ==> !((#[trigger] tiles[j]).0.x == c.x && tiles[j].0.y
                            == c.y);
                assert(tiles[k].0 == c);
            },
            None => {},
        }
    }
}

} // verus!
