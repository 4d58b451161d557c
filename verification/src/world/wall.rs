//! Wall tiles of a level, merged into rectangles: first each row's runs of
//! adjacent wall tiles become "plates", then equal plates of consecutive rows
//! are stacked into rectangles.

use std::collections::{HashMap, HashSet};
use vstd::prelude::*;

verus! {

broadcast use vstd::std_specs::hash::group_hash_axioms;

/// A tile position on a level's integer grid.
#[derive(Clone, Copy, PartialEq, Eq, Structural, Debug)]
pub struct GridCoords {
    pub x: i32,
    pub y: i32,
}

/// Whether the tile `(x, y)` is one of `walls`.
pub open spec fn is_wall(walls: Seq<GridCoords>, x: int, y: int) -> bool {
    exists|i: int| 0 <= i < walls.len() && (#[trigger] walls[i]).x == x && walls[i].y == y
}

/// An integer that tells grid positions apart: `x` and `y` shifted to be
/// non-negative and packed into the two halves of a 64-bit word.
pub open spec fn cell_key(x: int, y: int) -> int {
    (y - i32::MIN) * 0x1_0000_0000 + (x - i32::MIN)
}

/// `v` fits in an `i32`.
pub open spec fn in_i32(v: int) -> bool {
    i32::MIN <= v <= i32::MAX
}

/// Different positions have different keys.
pub proof fn lemma_cell_key_injective(x1: int, y1: int, x2: int, y2: int)
    requires
        in_i32(x1),
        in_i32(y1),
        in_i32(x2),
        in_i32(y2),
        cell_key(x1, y1) == cell_key(x2, y2),
    ensures
        x1 == x2,
        y1 == y2,
{
}

/// Every key fits in a `u64`.
pub proof fn lemma_cell_key_range(x: int, y: int)
    requires
        in_i32(x),
        in_i32(y),
    ensures
        0 <= cell_key(x, y) <= u64::MAX,
{
}

/// The key of tile `(x, y)`, by which sets and maps of tiles are indexed.
pub fn wall_key(x: i32, y: i32) -> (k: u64)
    ensures
        k == cell_key(x as int, y as int),
{
    let xo = (x as i64 - i32::MIN as i64) as u64;
    let yo = (y as i64 - i32::MIN as i64) as u64;
    yo * 0x1_0000_0000u64 + xo
}

/// `keys` holds exactly the keys of the tiles of `walls`.
pub open spec fn keys_of_walls(keys: Set<u64>, walls: Seq<GridCoords>) -> bool {
    forall|x: int, y: int|
        in_i32(x) && in_i32(y) ==> (keys.contains(cell_key(x, y) as u64) <==> is_wall(walls, x, y))
}

/// The keys of all wall tiles, for constant-time lookups.
fn wall_set(walls: &Vec<GridCoords>) -> (set: HashSet<u64>)
    ensures
        keys_of_walls(set@, walls@),
{
    let mut set: HashSet<u64> = HashSet::new();
    let n = walls.len();
    let mut i: usize = 0;
    while i < n
        invariant
            n == walls@.len(),
            i <= n,
            forall|k: u64|
                set@.contains(k) <==> exists|j: int|
                    0 <= j < i && k == cell_key(
                        (#[trigger] walls@[j]).x as int,
                        walls@[j].y as int,
                    ),
        decreases n - i,
    {
        let c = walls[i];
        let k = wall_key(c.x, c.y);
        set.insert(k);
        assert forall|k2: u64|
            set@.contains(k2) <==> exists|j: int|
                0 <= j < i + 1 && k2 == cell_key(
                    (#[trigger] walls@[j]).x as int,
                    walls@[j].y as int,
                ) by {
            if k2 == k {
                assert(walls@[i as int] == c);
            }
        }
        i = i + 1;
    }
    assert forall|x: int, y: int| in_i32(x) && in_i32(y) implies (set@.contains(
        cell_key(x, y) as u64,
    ) <==> is_wall(walls@, x, y)) by {
        lemma_cell_key_range(x, y);
        if set@.contains(cell_key(x, y) as u64) {
            let j = choose|j: int|
                0 <= j < n && cell_key(x, y) as u64 == cell_key(
                    (#[trigger] walls@[j]).x as int,
                    walls@[j].y as int,
                );
            lemma_cell_key_range(walls@[j].x as int, walls@[j].y as int);
            lemma_cell_key_injective(x, y, walls@[j].x as int, walls@[j].y as int);
        }
        if is_wall(walls@, x, y) {
            let j = choose|j: int|
                0 <= j < walls@.len() && (#[trigger] walls@[j]).x == x && walls@[j].y == y;
            assert(set@.contains(cell_key(x, y) as u64));
        }
    }
    set
}

/// One row's run of adjacent wall tiles, from column `left` to column `right`.
#[derive(Clone, Copy, PartialEq, Eq, Structural, Debug)]
pub struct Plate {
    pub left: i32,
    pub right: i32,
}

/// Columns `left..=right` of row `y` are a plate: a run of wall tiles inside
/// the level's width that starts at the first column or after a tile that is
/// no wall, and ends before a tile that is no wall. A run that reaches past
/// the last column is not a plate.
pub open spec fn is_plate(walls: Seq<GridCoords>, width: int, y: int, left: int, right: int) -> bool {
    &&& 0 <= left <= right < width
    &&& forall|x: int| left <= x <= right ==> #[trigger] is_wall(walls, x, y)
    &&& (left == 0 || !is_wall(walls, left - 1, y))
    &&& !is_wall(walls, right + 1, y)
}

/// The plates of one row: exactly the row's plates, from left to right.
pub open spec fn is_row_of_plates(
    walls: Seq<GridCoords>,
    width: int,
    y: int,
    plates: Seq<Plate>,
) -> bool {
    &&& forall|i: int|
        0 <= i < plates.len() ==> is_plate(
            walls,
            width,
            y,
            (#[trigger] plates[i]).left as int,
            plates[i].right as int,
        )
    &&& forall|l: int, r: int|
        #[trigger] is_plate(walls, width, y, l, r) ==> exists|i: int|
            0 <= i < plates.len() && (#[trigger] plates[i]).left == l && plates[i].right == r
    &&& forall|i: int, j: int|
        0 <= i < j < plates.len() ==> (#[trigger] plates[i]).right < (#[trigger] plates[j]).left
}

/// Scans row `y` from column 0 up to column `width` for its plates.
fn row_plates(keys: &HashSet<u64>, Ghost(walls): Ghost<Seq<GridCoords>>, width: i32, y: i32) -> (plates:
    Vec<Plate>)
    requires
        keys_of_walls(keys@, walls),
        width < i32::MAX,
    ensures
        is_row_of_plates(walls, width as int, y as int, plates@),
{
    let mut plates: Vec<Plate> = Vec::new();
    let mut start: Option<i32> = None;
    if width < 0 {
        return plates;
    }
    let mut x: i32 = 0;
    while x <= width
        invariant
            0 <= x <= width + 1,
            width < i32::MAX,
            keys_of_walls(keys@, walls),
            match start {
                Some(s) => {
                    &&& 0 <= s < x
                    &&& forall|z: int| s <= z < x ==> #[trigger] is_wall(walls, z, y as int)
                    &&& (s == 0 || !is_wall(walls, s - 1, y as int))
                    &&& forall|i: int|
                        0 <= i < plates@.len() ==> (#[trigger] plates@[i]).right + 1 < s
                },
                None => x == 0 || !is_wall(walls, x - 1, y as int),
            },
            forall|i: int|
                0 <= i < plates@.len() ==> is_plate(
                    walls,
                    width as int,
                    y as int,
                    (#[trigger] plates@[i]).left as int,
                    plates@[i].right as int,
                ) && plates@[i].right + 1 < x,
            forall|l: int, r: int|
                #[trigger] is_plate(walls, width as int, y as int, l, r) && r + 1 < x ==> exists|
                    i: int,
                |
                    0 <= i < plates@.len() && (#[trigger] plates@[i]).left == l && plates@[i].right
                        == r,
            forall|i: int, j: int|
                0 <= i < j < plates@.len() ==> (#[trigger] plates@[i]).right < (
                #[trigger] plates@[j]).left,
        decreases width + 1 - x,
    {
        let k = wall_key(x, y);
        proof {
            lemma_cell_key_range(x as int, y as int);
        }
        let here = keys.contains(&k);
        assert(here == is_wall(walls, x as int, y as int));
        if here {
            if start.is_none() {
                start = Some(x);
            }
        } else if let Some(s) = start {
            let ghost old_plates = plates@;
            let p = Plate { left: s, right: x - 1 };
            plates.push(p);
            start = None;
            assert(plates@[old_plates.len() as int] == p);
            assert forall|l: int, r: int|
                #[trigger] is_plate(walls, width as int, y as int, l, r) && r + 1 < x + 1 implies exists|
                    i: int,
                |
                    0 <= i < plates@.len() && (#[trigger] plates@[i]).left == l && plates@[i].right
                        == r by {
                if r + 1 == x {
                    assert(is_wall(walls, r, y as int));
                    if l < s {
                        assert(is_wall(walls, s - 1, y as int));
                    }
                    if l > s {
                        assert(is_wall(walls, l - 1, y as int));
                    }
                    assert(plates@[old_plates.len() as int].left == l);
                } else {
                    let i = choose|i: int|
                        0 <= i < old_plates.len() && (#[trigger] old_plates[i]).left == l
                            && old_plates[i].right == r;
                    assert(plates@[i] == old_plates[i]);
                }
            }
        } else {
            assert forall|l: int, r: int|
                #[trigger] is_plate(walls, width as int, y as int, l, r) && r + 1 < x + 1 implies exists|
                    i: int,
                |
                    0 <= i < plates@.len() && (#[trigger] plates@[i]).left == l && plates@[i].right
                        == r by {
                if r + 1 == x {
                    assert(is_wall(walls, r, y as int));
                }
            }
        }
        x = x + 1;
    }
    plates
}

/// A rectangle of wall tiles: columns `left..=right`, rows `bottom..=top`.
#[derive(Clone, Copy, PartialEq, Eq, Structural, Debug)]
pub struct WallRect {
    pub left: i32,
    pub right: i32,
    pub top: i32,
    pub bottom: i32,
}

/// Plate `left..=right` occurs in row `y` of `rows`.
pub open spec fn in_row(rows: Seq<Seq<Plate>>, y: int, left: int, right: int) -> bool {
    &&& 0 <= y < rows.len()
    &&& exists|i: int|
        0 <= i < rows[y].len() && (#[trigger] rows[y][i]).left == left && rows[y][i].right
            == right
}

/// Plate occurrence in the rows of `rows`, as a predicate on row, left and right.
pub open spec fn row_occurs(rows: Seq<Seq<Plate>>) -> spec_fn(int, int, int) -> bool {
    |y: int, left: int, right: int| in_row(rows, y, left, right)
}

/// The plate of `rect` occurs in each of its rows, and not in the row below
/// its bottom: a stack that may still grow upwards.
pub open spec fn is_open_stack(occurs: spec_fn(int, int, int) -> bool, rect: WallRect) -> bool {
    &&& rect.bottom <= rect.top
    &&& forall|y: int|
        rect.bottom <= y <= rect.top ==> #[trigger] occurs(y, rect.left as int, rect.right as int)
    &&& !occurs(rect.bottom - 1, rect.left as int, rect.right as int)
}

/// `rect` is a maximal vertical stack of one plate: the plate occurs in every
/// row from `bottom` to `top` and in neither neighbouring row.
pub open spec fn is_stack(occurs: spec_fn(int, int, int) -> bool, rect: WallRect) -> bool {
    &&& is_open_stack(occurs, rect)
    &&& !occurs(rect.top + 1, rect.left as int, rect.right as int)
}

/// `a` is finished before `b`: lower top first, then further left.
pub open spec fn rect_before(a: WallRect, b: WallRect) -> bool {
    a.top < b.top || (a.top == b.top && a.left < b.left)
}

/// `rects` lists every maximal stack exactly once, ordered by top, then left.
pub open spec fn is_stack_list(occurs: spec_fn(int, int, int) -> bool, rects: Seq<WallRect>) -> bool {
    &&& forall|i: int| 0 <= i < rects.len() ==> is_stack(occurs, #[trigger] rects[i])
    &&& forall|rect: WallRect|
        #[trigger] is_stack(occurs, rect) ==> exists|i: int| 0 <= i < rects.len() && rects[i] == rect
    &&& forall|i: int, j: int|
        0 <= i < j < rects.len() ==> rect_before(#[trigger] rects[i], #[trigger] rects[j])
}

/// The plates of each row are ordered from left to right.
pub open spec fn rows_left_sorted(rows: Seq<Seq<Plate>>) -> bool {
    forall|y: int, i: int, j: int|
        0 <= y < rows.len() && 0 <= i < j < rows[y].len() ==> (#[trigger] rows[y][i]).left < (
        #[trigger] rows[y][j]).left
}

pub open spec fn plate_rows(rows: Seq<Vec<Plate>>) -> Seq<Seq<Plate>> {
    rows.map_values(|v: Vec<Plate>| v@)
}

proof fn lemma_stack_bottom_unique(
    occurs: spec_fn(int, int, int) -> bool,
    a: WallRect,
    b: WallRect,
)
    requires
        is_open_stack(occurs, a),
        is_open_stack(occurs, b),
        a.left == b.left,
        a.right == b.right,
        a.top == b.top,
    ensures
        a == b,
{
    if a.bottom < b.bottom {
        assert(occurs(b.bottom - 1, b.left as int, b.right as int));
    }
    if b.bottom < a.bottom {
        assert(occurs(a.bottom - 1, a.left as int, a.right as int));
    }
}

fn find_plate(plates: &Vec<Plate>, left: i32, right: i32) -> (found: bool)
    ensures
        found == exists|i: int|
            0 <= i < plates@.len() && (#[trigger] plates@[i]).left == left && plates@[i].right
                == right,
{
    let n = plates.len();
    let mut i: usize = 0;
    while i < n
        invariant
            n == plates@.len(),
            i <= n,
            forall|k: int|
                0 <= k < i ==> !((#[trigger] plates@[k]).left == left && plates@[k].right == right),
        decreases n - i,
    {
        if plates[i].left == left && plates[i].right == right {
            return true;
        }
        i = i + 1;
    }
    false
}

/// The key of a plate: its two columns packed like a tile's coordinates.
pub open spec fn plate_key(p: Plate) -> u64 {
    cell_key(p.left as int, p.right as int) as u64
}

proof fn lemma_plate_key_injective(p: Plate, q: Plate)
    requires
        plate_key(p) == plate_key(q),
    ensures
        p == q,
{
    lemma_cell_key_range(p.left as int, p.right as int);
    lemma_cell_key_range(q.left as int, q.right as int);
    lemma_cell_key_injective(p.left as int, p.right as int, q.left as int, q.right as int);
}

fn plate_key_of(p: Plate) -> (k: u64)
    ensures
        k == plate_key(p),
{
    proof {
        lemma_cell_key_range(p.left as int, p.right as int);
    }
    wall_key(p.left, p.right)
}

/// `builder` maps the key of each of `plates` to the open rectangle of that
/// plate topped in row `top`, and holds no other key.
pub open spec fn builds(
    builder: Map<u64, WallRect>,
    plates: Seq<Plate>,
    occurs: spec_fn(int, int, int) -> bool,
    top: int,
) -> bool {
    &&& forall|k: u64|
        #[trigger] builder.contains_key(k) ==> exists|a: int|
            0 <= a < plates.len() && k == plate_key(#[trigger] plates[a])
    &&& forall|a: int|
        0 <= a < plates.len() ==> {
            let k = plate_key(#[trigger] plates[a]);
            &&& builder.contains_key(k)
            &&& builder[k].left == plates[a].left
            &&& builder[k].right == plates[a].right
            &&& builder[k].top == top
            &&& is_open_stack(occurs, builder[k])
        }
}

/// The plates are ordered from left to right.
pub open spec fn left_sorted(plates: Seq<Plate>) -> bool {
    forall|a: int, b: int|
        0 <= a < b < plates.len() ==> (#[trigger] plates[a]).left < (#[trigger] plates[b]).left
}

/// Finishes the rectangles of `builder` whose plate (one of `prev`, the
/// plates of row `y - 1`) does not occur in row `y`: each is taken out of
/// `builder` and appended to `rects`, from left to right.
fn finish_stacks(
    prev: &Vec<Plate>,
    current: &Vec<Plate>,
    builder: &mut HashMap<u64, WallRect>,
    rects: &mut Vec<WallRect>,
    Ghost(occ): Ghost<spec_fn(int, int, int) -> bool>,
    Ghost(y): Ghost<int>,
)
    requires
        builds(old(builder)@, prev@, occ, y - 1),
        left_sorted(prev@),
        forall|l: int, r: int| #[trigger] occ(y, l, r) ==> exists|k: int|
            0 <= k < current@.len() && (#[trigger] current@[k]).left == l && current@[k].right == r,
        forall|k: int|
            0 <= k < current@.len() ==> #[trigger] occ(
                y,
                current@[k].left as int,
                current@[k].right as int,
            ),
        forall|k: int|
            0 <= k < old(rects)@.len() ==> is_stack(occ, #[trigger] old(rects)@[k]) && old(rects)@[k].top + 1 < y,
        forall|a: int, b: int|
            0 <= a < b < old(rects)@.len() ==> rect_before(
                #[trigger] old(rects)@[a],
                #[trigger] old(rects)@[b],
            ),
    ensures
        forall|k: u64|
            #[trigger] final(builder)@.contains_key(k) ==> old(builder)@.contains_key(k) && final(builder)@[k] == old(builder)@[k],
        forall|a: int|
            0 <= a < prev@.len() ==> (final(builder)@.contains_key(plate_key(#[trigger] prev@[a]))
                <==> occ(y, prev@[a].left as int, prev@[a].right as int)),
        old(rects)@.len() <= final(rects)@.len(),
        forall|k: int| 0 <= k < old(rects)@.len() ==> final(rects)@[k] == old(rects)@[k],
        forall|k: int|
            0 <= k < final(rects)@.len() ==> is_stack(occ, #[trigger] final(rects)@[k])
                && final(rects)@[k].top < y,
        forall|a: int|
            0 <= a < prev@.len() && !occ(y, (#[trigger] prev@[a]).left as int, prev@[a].right as int)
                ==> exists|k: int|
                0 <= k < final(rects)@.len() && final(rects)@[k] == old(builder)@[plate_key(
                    prev@[a],
                )],
        forall|a: int, b: int|
            0 <= a < b < final(rects)@.len() ==> rect_before(
                #[trigger] final(rects)@[a],
                #[trigger] final(rects)@[b],
            ),
{
    let ghost old_rects = rects@;
    let ghost old_builder = builder@;
    let ghost open = Seq::new(prev@.len(), |a: int| old_builder[plate_key(prev@[a])]);
    assert forall|a: int, b: int|
        0 <= a < prev@.len() && 0 <= b < prev@.len() && a != b implies plate_key(
            #[trigger] prev@[a],
        ) != plate_key(#[trigger] prev@[b]) by {
        if plate_key(prev@[a]) == plate_key(prev@[b]) {
            lemma_plate_key_injective(prev@[a], prev@[b]);
        }
    }
    let m = prev.len();
    let mut i: usize = 0;
    while i < m
        invariant
            m == prev@.len(),
            i <= m,
            open.len() == m,
            builds(old_builder, prev@, occ, y - 1),
            forall|a: int| 0 <= a < m ==> #[trigger] open[a] == old_builder[plate_key(prev@[a])],
            forall|a: int, b: int|
                0 <= a < prev@.len() && 0 <= b < prev@.len() && a != b ==> plate_key(
                    #[trigger] prev@[a],
                ) != plate_key(#[trigger] prev@[b]),
            left_sorted(prev@),
            forall|l: int, r: int| #[trigger] occ(y, l, r) ==> exists|k: int|
                0 <= k < current@.len() && (#[trigger] current@[k]).left == l && current@[k].right
                    == r,
            forall|k: int|
                0 <= k < current@.len() ==> #[trigger] occ(
                    y,
                    current@[k].left as int,
                    current@[k].right as int,
                ),
            forall|k: u64|
                #[trigger] builder@.contains_key(k) ==> old_builder.contains_key(k) && builder@[k]
                    == old_builder[k],
            forall|a: int|
                i <= a < m ==> builder@.contains_key(plate_key(#[trigger] prev@[a])),
            forall|a: int|
                0 <= a < i ==> (builder@.contains_key(plate_key(#[trigger] prev@[a])) <==> occ(
                    y,
                    prev@[a].left as int,
                    prev@[a].right as int,
                )),
            old_rects.len() <= rects@.len(),
            forall|k: int| 0 <= k < old_rects.len() ==> rects@[k] == old_rects[k],
            forall|k: int|
                0 <= k < old_rects.len() ==> is_stack(occ, #[trigger] old_rects[k])
                    && old_rects[k].top + 1 < y,
            forall|k: int|
                old_rects.len() <= k < rects@.len() ==> is_stack(occ, #[trigger] rects@[k])
                    && exists|a: int| 0 <= a < i && open[a] == rects@[k],
            forall|a: int|
                0 <= a < i && !occ(y, (#[trigger] prev@[a]).left as int, prev@[a].right as int)
                    ==> exists|k: int| 0 <= k < rects@.len() && rects@[k] == open[a],
            forall|a: int, b: int|
                0 <= a < b < rects@.len() ==> rect_before(#[trigger] rects@[a], #[trigger] rects@[b]),
        decreases m - i,
    {
        let p = prev[i];
        let ghost before_builder = builder@;
        assert(builds(old_builder, prev@, occ, y - 1));
        assert(p == prev@[i as int]);
        assert(open[i as int].left == p.left && open[i as int].right == p.right);
        assert(open[i as int].top == y - 1 && is_open_stack(occ, open[i as int]));
        if !find_plate(current, p.left, p.right) {
            assert(!occ(y, p.left as int, p.right as int));
            let k = plate_key_of(p);
            let removed = builder.remove(&k);
            assert(builder@ == before_builder.remove(k));
            assert forall|a: int| i < a < m implies builder@.contains_key(
                plate_key(#[trigger] prev@[a]),
            ) by {
                assert(plate_key(prev@[a]) != plate_key(prev@[i as int]));
            }
            assert forall|a: int|
                0 <= a < i + 1 implies (builder@.contains_key(plate_key(#[trigger] prev@[a]))
                <==> occ(y, prev@[a].left as int, prev@[a].right as int)) by {
                if a < i {
                    assert(plate_key(prev@[a]) != plate_key(prev@[i as int]));
                }
            }
            if let Some(o) = removed {
                assert(o == open[i as int]);
                let ghost before = rects@;
                rects.push(o);
                assert(rects@[before.len() as int] == o);
                assert(is_stack(occ, o));
                assert forall|a: int, b: int|
                    0 <= a < b < rects@.len() implies rect_before(
                        #[trigger] rects@[a],
                        #[trigger] rects@[b],
                    ) by {
                    if b == before.len() {
                        if a >= old_rects.len() {
                            assert(before[a] == rects@[a]);
                            let c = choose|c: int| 0 <= c < i && open[c] == before[a];
                            assert(prev@[c].left < prev@[i as int].left);
                        } else {
                            assert(rects@[a] == old_rects[a]);
                        }
                    } else {
                        assert(rects@[a] == before[a]);
                        assert(rects@[b] == before[b]);
                    }
                }
                assert forall|k2: int|
                    old_rects.len() <= k2 < rects@.len() implies is_stack(occ, #[trigger] rects@[k2])
                        && exists|a: int| 0 <= a < i + 1 && open[a] == rects@[k2] by {
                    if k2 < before.len() {
                        assert(rects@[k2] == before[k2]);
                        let a = choose|a: int| 0 <= a < i && open[a] == before[k2];
                    } else {
                        assert(open[i as int] == rects@[k2]);
                    }
                }
                assert forall|a: int|
                    0 <= a < i + 1 && !occ(y, (#[trigger] prev@[a]).left as int, prev@[a].right as int)
                        implies exists|k2: int| 0 <= k2 < rects@.len() && rects@[k2] == open[a] by {
                    if a < i {
                        let k2 = choose|k2: int| 0 <= k2 < before.len() && before[k2] == open[a];
                        assert(rects@[k2] == before[k2]);
                    } else {
                        assert(rects@[before.len() as int] == open[a]);
                    }
                }
            }
        } else {
            let ghost kk = choose|kk: int|
                0 <= kk < current@.len() && (#[trigger] current@[kk]).left == p.left
                    && current@[kk].right == p.right;
            assert(occ(y, current@[kk].left as int, current@[kk].right as int));
        }
        i = i + 1;
    }
    assert forall|k: int| 0 <= k < rects@.len() implies is_stack(occ, #[trigger] rects@[k])
        && rects@[k].top < y by {
        if k < old_rects.len() {
            assert(rects@[k] == old_rects[k]);
        } else {
            let a = choose|a: int| 0 <= a < i && open[a] == rects@[k];
        }
    }
}

/// Grows `builder` by row `y`: each plate of the row continues the open
/// rectangle of the same plate, topped in row `y - 1`, or starts a new one.
fn grow_stacks(
    current: &Vec<Plate>,
    builder: &mut HashMap<u64, WallRect>,
    y: i32,
    Ghost(occ): Ghost<spec_fn(int, int, int) -> bool>,
)
    requires
        0 <= y,
        left_sorted(current@),
        forall|k: u64|
            #[trigger] old(builder)@.contains_key(k) ==> exists|a: int|
                0 <= a < current@.len() && k == plate_key(#[trigger] current@[a]),
        forall|k: u64|
            #[trigger] old(builder)@.contains_key(k) ==> {
                &&& old(builder)@[k].top == y - 1
                &&& is_open_stack(occ, old(builder)@[k])
                &&& plate_key(Plate { left: old(builder)@[k].left, right: old(builder)@[k].right })
                    == k
            },
        forall|a: int|
            0 <= a < current@.len() && occ(
                y - 1,
                (#[trigger] current@[a]).left as int,
                current@[a].right as int,
            ) ==> old(builder)@.contains_key(plate_key(current@[a])),
        forall|a: int|
            0 <= a < current@.len() ==> #[trigger] occ(
                y as int,
                current@[a].left as int,
                current@[a].right as int,
            ),
    ensures
        builds(final(builder)@, current@, occ, y as int),
{
    let ghost old_builder = builder@;
    assert forall|a: int, b: int|
        0 <= a < current@.len() && 0 <= b < current@.len() && a != b implies plate_key(
            #[trigger] current@[a],
        ) != plate_key(#[trigger] current@[b]) by {
        if plate_key(current@[a]) == plate_key(current@[b]) {
            lemma_plate_key_injective(current@[a], current@[b]);
        }
    }
    let c = current.len();
    let mut j: usize = 0;
    while j < c
        invariant
            c == current@.len(),
            j <= c,
            0 <= y,
            forall|a: int, b: int|
                0 <= a < current@.len() && 0 <= b < current@.len() && a != b ==> plate_key(
                    #[trigger] current@[a],
                ) != plate_key(#[trigger] current@[b]),
            forall|k: u64|
                #[trigger] old_builder.contains_key(k) ==> exists|a: int|
                    0 <= a < current@.len() && k == plate_key(#[trigger] current@[a]),
            forall|k: u64|
                #[trigger] old_builder.contains_key(k) ==> {
                    &&& old_builder[k].top == y - 1
                    &&& is_open_stack(occ, old_builder[k])
                    &&& plate_key(Plate { left: old_builder[k].left, right: old_builder[k].right })
                        == k
                },
            forall|a: int|
                0 <= a < current@.len() && occ(
                    y - 1,
                    (#[trigger] current@[a]).left as int,
                    current@[a].right as int,
                ) ==> old_builder.contains_key(plate_key(current@[a])),
            forall|a: int|
                0 <= a < current@.len() ==> #[trigger] occ(
                    y as int,
                    current@[a].left as int,
                    current@[a].right as int,
                ),
            forall|k: u64|
                #[trigger] builder@.contains_key(k) ==> exists|a: int|
                    0 <= a < current@.len() && k == plate_key(#[trigger] current@[a]),
            forall|a: int|
                j <= a < c ==> (builder@.contains_key(plate_key(#[trigger] current@[a]))
                    <==> old_builder.contains_key(plate_key(current@[a]))) && (builder@.contains_key(
                    plate_key(current@[a]),
                ) ==> builder@[plate_key(current@[a])] == old_builder[plate_key(current@[a])]),
            forall|a: int|
                0 <= a < j ==> {
                    let k = plate_key(#[trigger] current@[a]);
                    &&& builder@.contains_key(k)
                    &&& builder@[k].left == current@[a].left
                    &&& builder@[k].right == current@[a].right
                    &&& builder@[k].top == y
                    &&& is_open_stack(occ, builder@[k])
                },
        decreases c - j,
    {
        let p = current[j];
        assert(p == current@[j as int]);
        let k = plate_key_of(p);
        let ghost before = builder@;
        assert(occ(y as int, p.left as int, p.right as int));
        let rect = match builder.get(&k) {
            Some(o) => {
                let o = *o;
                assert(old_builder.contains_key(k) && o == old_builder[k]);
                proof {
                    lemma_plate_key_injective(Plate { left: o.left, right: o.right }, p);
                }
                let r = WallRect { left: o.left, right: o.right, top: y, bottom: o.bottom };
                assert forall|z: int| r.bottom <= z <= r.top implies #[trigger] occ(
                    z,
                    r.left as int,
                    r.right as int,
                ) by {
                    if z < y {
                        assert(occ(z, o.left as int, o.right as int));
                    }
                }
                r
            },
            None => {
                assert(!occ(y - 1, p.left as int, p.right as int));
                WallRect { left: p.left, right: p.right, top: y, bottom: y }
            },
        };
        builder.insert(k, rect);
        assert(builder@ == before.insert(k, rect));
        assert forall|a: int| j + 1 <= a < c implies (builder@.contains_key(
            plate_key(#[trigger] current@[a]),
        ) <==> old_builder.contains_key(plate_key(current@[a]))) && (builder@.contains_key(
            plate_key(current@[a]),
        ) ==> builder@[plate_key(current@[a])] == old_builder[plate_key(current@[a])]) by {
            assert(plate_key(current@[a]) != k);
        }
        assert forall|a: int| 0 <= a < j + 1 implies {
            let k2 = plate_key(#[trigger] current@[a]);
            &&& builder@.contains_key(k2)
            &&& builder@[k2].left == current@[a].left
            &&& builder@[k2].right == current@[a].right
            &&& builder@[k2].top == y
            &&& is_open_stack(occ, builder@[k2])
        } by {
            if a < j {
                assert(plate_key(current@[a]) != k);
            }
        }
        assert forall|k2: u64| #[trigger] builder@.contains_key(k2) implies exists|a: int|
            0 <= a < current@.len() && k2 == plate_key(#[trigger] current@[a]) by {
            if k2 == k {
                assert(k2 == plate_key(current@[j as int]));
            }
        }
        j = j + 1;
    }
}

/// Stacks equal plates of consecutive rows into rectangles. A rectangle is
/// finished in the first row that lacks its plate; a row past the last one
/// finishes all that remain. The rectangles under construction are kept by
/// the key of their plate.
fn stack_plates(rows: &Vec<Vec<Plate>>) -> (rects: Vec<WallRect>)
    requires
        rows@.len() <= i32::MAX,
        rows_left_sorted(plate_rows(rows@)),
    ensures
        is_stack_list(row_occurs(plate_rows(rows@)), rects@),
{
    let ghost rs = plate_rows(rows@);
    let ghost occ = row_occurs(rs);
    let n = rows.len();
    let empty: Vec<Plate> = Vec::new();
    let mut prev: &Vec<Plate> = &empty;
    let mut builder: HashMap<u64, WallRect> = HashMap::new();
    let mut rects: Vec<WallRect> = Vec::new();
    let mut y: usize = 0;
    assert forall|rect: WallRect| #[trigger] is_stack(occ, rect) implies 0 <= rect.top < n by {
        assert(occ(rect.top as int, rect.left as int, rect.right as int));
    }
    while y <= n
        invariant
            n == rows@.len(),
            n <= i32::MAX,
            forall|rect: WallRect| #[trigger] is_stack(occ, rect) ==> 0 <= rect.top < n,
            empty@.len() == 0,
            rs == plate_rows(rows@),
            occ == row_occurs(rs),
            rows_left_sorted(rs),
            y <= n + 1,
            builds(builder@, prev@, occ, y - 1),
            left_sorted(prev@),
            forall|l: int, r: int| #[trigger] occ(y - 1, l, r) ==> exists|a: int|
                0 <= a < prev@.len() && (#[trigger] prev@[a]).left == l && prev@[a].right == r,
            forall|i: int|
                0 <= i < rects@.len() ==> is_stack(occ, #[trigger] rects@[i]) && rects@[i].top + 1
                    < y,
            forall|rect: WallRect|
                #[trigger] is_stack(occ, rect) && rect.top + 1 < y ==> exists|i: int|
                    0 <= i < rects@.len() && rects@[i] == rect,
            forall|i: int, j: int|
                0 <= i < j < rects@.len() ==> rect_before(#[trigger] rects@[i], #[trigger] rects@[j]),
        decreases n + 1 - y,
    {
        let current: &Vec<Plate> = if y < n {
            &rows[y]
        } else {
            &empty
        };
        assert(y < n ==> current@ == rs[y as int]);
        assert(y == n ==> current@.len() == 0);
        assert forall|l: int, r: int| #[trigger] occ(y as int, l, r) implies exists|k: int|
            0 <= k < current@.len() && (#[trigger] current@[k]).left == l && current@[k].right
                == r by {
            assert(in_row(rs, y as int, l, r));
        }
        assert forall|k: int| 0 <= k < current@.len() implies #[trigger] occ(
            y as int,
            current@[k].left as int,
            current@[k].right as int,
        ) by {
            if y < n {
                assert(rs[y as int][k] == current@[k]);
            }
        }
        assert forall|a: int, b: int| 0 <= a < b < current@.len() implies (#[trigger] current@[a]).left < (
        #[trigger] current@[b]).left by {
            assert(rs[y as int][a] == current@[a]);
            assert(rs[y as int][b] == current@[b]);
        }
        let ghost old_rects = rects@;
        let ghost old_builder = builder@;
        finish_stacks(prev, current, &mut builder, &mut rects, Ghost(occ), Ghost(y as int));
        // Every maximal stack topped in the previous row is now finished.
        assert forall|rect: WallRect|
            #[trigger] is_stack(occ, rect) && rect.top + 1 < y + 1 implies exists|i: int|
                0 <= i < rects@.len() && rects@[i] == rect by {
            if rect.top + 1 == y {
                assert(occ(rect.top as int, rect.left as int, rect.right as int));
                assert(occ(y - 1, rect.left as int, rect.right as int));
                let a = choose|a: int|
                    0 <= a < prev@.len() && (#[trigger] prev@[a]).left == rect.left
                        && prev@[a].right == rect.right;
                assert(builds(old_builder, prev@, occ, y - 1));
                let o = old_builder[plate_key(prev@[a])];
                assert(is_open_stack(occ, o));
                lemma_stack_bottom_unique(occ, o, rect);
            } else {
                let i = choose|i: int| 0 <= i < old_rects.len() && old_rects[i] == rect;
                assert(rects@[i] == old_rects[i]);
            }
        }
        // What is left in the builder continues in this row.
        assert forall|k: u64| #[trigger] builder@.contains_key(k) implies exists|a: int|
            0 <= a < current@.len() && k == plate_key(#[trigger] current@[a]) by {
            let b = choose|b: int| 0 <= b < prev@.len() && k == plate_key(#[trigger] prev@[b]);
            assert(occ(y as int, prev@[b].left as int, prev@[b].right as int));
            let a = choose|a: int|
                0 <= a < current@.len() && (#[trigger] current@[a]).left == prev@[b].left
                    && current@[a].right == prev@[b].right;
            assert(current@[a] == prev@[b]);
        }
        assert forall|k: u64| #[trigger] builder@.contains_key(k) implies {
            &&& builder@[k].top == y - 1
            &&& is_open_stack(occ, builder@[k])
            &&& plate_key(Plate { left: builder@[k].left, right: builder@[k].right }) == k
        } by {
            let b = choose|b: int| 0 <= b < prev@.len() && k == plate_key(#[trigger] prev@[b]);
            assert(Plate { left: builder@[k].left, right: builder@[k].right } == prev@[b]);
        }
        assert forall|a: int|
            0 <= a < current@.len() && occ(
                y - 1,
                (#[trigger] current@[a]).left as int,
                current@[a].right as int,
            ) implies builder@.contains_key(plate_key(current@[a])) by {
            let b = choose|b: int|
                0 <= b < prev@.len() && (#[trigger] prev@[b]).left == current@[a].left
                    && prev@[b].right == current@[a].right;
            assert(prev@[b] == current@[a]);
            assert(occ(y as int, prev@[b].left as int, prev@[b].right as int));
        }
        grow_stacks(current, &mut builder, y as i32, Ghost(occ));
        assert forall|l: int, r: int| #[trigger] occ(y as int, l, r) implies exists|a: int|
            0 <= a < current@.len() && (#[trigger] current@[a]).left == l && current@[a].right
                == r by {
            assert(in_row(rs, y as int, l, r));
        }
        prev = current;
        y = y + 1;
    }
    rects
}

/// Plate `left..=right` of row `y`, for a level `width` tiles wide and
/// `height` tiles high.
pub open spec fn plate_at(
    walls: Seq<GridCoords>,
    width: int,
    height: int,
    y: int,
    left: int,
    right: int,
) -> bool {
    0 <= y < height && is_plate(walls, width, y, left, right)
}

/// The plates of a level, as a predicate on row, left and right.
pub open spec fn level_plates(walls: Seq<GridCoords>, width: int, height: int) -> spec_fn(
    int,
    int,
    int,
) -> bool {
    |y: int, left: int, right: int| plate_at(walls, width, height, y, left, right)
}

/// `rect` is one of the rectangles that the walls of a level merge into.
pub open spec fn is_wall_rect(walls: Seq<GridCoords>, width: int, height: int, rect: WallRect) -> bool {
    is_stack(level_plates(walls, width, height), rect)
}

/// Tile `(x, y)` lies in `rect`.
pub open spec fn covers(rect: WallRect, x: int, y: int) -> bool {
    rect.left <= x <= rect.right && rect.bottom <= y <= rect.top
}

/// Merges the wall tiles of a level `width` tiles wide and `height` tiles
/// high into rectangles. Each row's maximal runs of wall tiles become plates
/// (a run that reaches past the last column is dropped), and each plate
/// repeated over consecutive rows becomes one rectangle. The rectangles come
/// ordered by top row, then by left column.
pub fn wall_rects(width: i32, height: i32, walls: &Vec<GridCoords>) -> (rects: Vec<WallRect>)
    requires
        width < i32::MAX,
    ensures
        is_stack_list(level_plates(walls@, width as int, height as int), rects@),
        forall|x: int, y: int|
            0 <= x < width && 0 <= y < height && !is_wall(walls@, width as int, y) ==> (is_wall(
                walls@,
                x,
                y,
            ) <==> exists|i: int| 0 <= i < rects@.len() && covers(#[trigger] rects@[i], x, y)),
        forall|i: int, j: int, x: int, y: int|
            0 <= i < j < rects@.len() ==> !(#[trigger] covers(rects@[i], x, y) && #[trigger] covers(
                rects@[j],
                x,
                y,
            )),
        rects@.len() <= walls@.len(),
{
    let keys = wall_set(walls);
    let mut rows: Vec<Vec<Plate>> = Vec::new();
    let mut y: i32 = 0;
    while y < height
        invariant
            0 <= y,
            height >= 0 ==> y <= height,
            height < 0 ==> y == 0,
            width < i32::MAX,
            rows@.len() == y,
            keys_of_walls(keys@, walls@),
            forall|z: int|
                0 <= z < y ==> is_row_of_plates(walls@, width as int, z, #[trigger] rows@[z]@),
        decreases height - y,
    {
        let row = row_plates(&keys, Ghost(walls@), width, y);
        rows.push(row);
        assert(rows@[y as int]@ == row@);
        y = y + 1;
    }
    let ghost rs = plate_rows(rows@);
    let ghost occ = level_plates(walls@, width as int, height as int);
    assert forall|z: int, i: int, j: int|
        0 <= z < rs.len() && 0 <= i < j < rs[z].len() implies (#[trigger] rs[z][i]).left < (
        #[trigger] rs[z][j]).left by {
        assert(rs[z] == rows@[z]@);
        assert(is_plate(walls@, width as int, z, rs[z][i].left as int, rs[z][i].right as int));
    }
    assert(row_occurs(rs) =~= occ) by {
        assert forall|z: int, l: int, r: int| #[trigger] in_row(rs, z, l, r) == plate_at(
            walls@,
            width as int,
            height as int,
            z,
            l,
            r,
        ) by {
            if 0 <= z < rs.len() {
                assert(rs[z] == rows@[z]@);
                if in_row(rs, z, l, r) {
                    let i = choose|i: int|
                        0 <= i < rs[z].len() && (#[trigger] rs[z][i]).left == l && rs[z][i].right
                            == r;
                    assert(is_plate(walls@, width as int, z, rs[z][i].left as int, rs[z][i].right as int));
                }
                if is_plate(walls@, width as int, z, l, r) {
                    let i = choose|i: int|
                        0 <= i < rows@[z]@.len() && (#[trigger] rows@[z]@[i]).left == l
                            && rows@[z]@[i].right == r;
                    assert(rs[z][i] == rows@[z]@[i]);
                }
            }
        }
    }
    let rects = stack_plates(&rows);
    proof {
        assert forall|x: int, y: int|
            0 <= x < width && 0 <= y < height && !is_wall(walls@, width as int, y) implies (is_wall(
                walls@,
                x,
                y,
            ) <==> exists|i: int| 0 <= i < rects@.len() && covers(#[trigger] rects@[i], x, y)) by {
            if is_wall(walls@, x, y) {
                let rect = lemma_wall_tile_covered(walls@, width as int, height as int, x, y);
                let i = choose|i: int| 0 <= i < rects@.len() && rects@[i] == rect;
                assert(covers(rects@[i], x, y));
            }
            if exists|i: int| 0 <= i < rects@.len() && covers(#[trigger] rects@[i], x, y) {
                let i = choose|i: int| 0 <= i < rects@.len() && covers(#[trigger] rects@[i], x, y);
                lemma_wall_rect_tiles_are_walls(walls@, width as int, height as int, rects@[i], x, y);
            }
        }
        assert forall|i: int, j: int, x: int, y: int|
            0 <= i < j < rects@.len() implies !(#[trigger] covers(rects@[i], x, y) && #[trigger] covers(
                rects@[j],
                x,
                y,
            )) by {
            if covers(rects@[i], x, y) && covers(rects@[j], x, y) {
                lemma_wall_rects_disjoint(walls@, width as int, height as int, rects@[i], rects@[j], x, y);
                assert(rect_before(rects@[i], rects@[j]));
            }
        }
        lemma_no_more_rects_than_walls(walls@, width as int, height as int, rects@);
    }
    rects
}

/// The bottom-left tile of `rect`.
pub open spec fn corner(rect: WallRect) -> GridCoords {
    GridCoords { x: rect.left, y: rect.bottom }
}

/// Merging never makes more rectangles than there are wall tiles: each
/// rectangle has a wall tile of its own at its bottom-left corner.
pub proof fn lemma_no_more_rects_than_walls(
    walls: Seq<GridCoords>,
    width: int,
    height: int,
    rects: Seq<WallRect>,
)
    requires
        is_stack_list(level_plates(walls, width, height), rects),
    ensures
        rects.len() <= walls.len(),
{
    broadcast use vstd::seq_lib::seq_to_set_is_finite;

    let corners = rects.map_values(|r: WallRect| corner(r));
    assert forall|i: int, j: int|
        0 <= i < corners.len() && 0 <= j < corners.len() && i != j implies corners[i]
        != corners[j] by {
        if corners[i] == corners[j] {
            let (a, b) = if i < j {
                (i, j)
            } else {
                (j, i)
            };
            let occ = level_plates(walls, width, height);
            assert(is_stack(occ, rects[a]));
            assert(is_stack(occ, rects[b]));
            assert(corners[a] == corner(rects[a]) && corners[b] == corner(rects[b]));
            assert(occ(rects[a].bottom as int, rects[a].left as int, rects[a].right as int));
            assert(occ(rects[b].bottom as int, rects[b].left as int, rects[b].right as int));
            assert(covers(rects[a], rects[a].left as int, rects[a].bottom as int));
            assert(covers(rects[b], rects[a].left as int, rects[a].bottom as int));
            lemma_wall_rects_disjoint(
                walls,
                width,
                height,
                rects[a],
                rects[b],
                rects[a].left as int,
                rects[a].bottom as int,
            );
            assert(rect_before(rects[a], rects[b]));
        }
    }
    assert(corners.no_duplicates());
    corners.unique_seq_to_set();
    assert forall|c: GridCoords| corners.to_set().contains(c) implies walls.to_set().contains(c) by {
        let i = choose|i: int| 0 <= i < corners.len() && corners[i] == c;
        let occ = level_plates(walls, width, height);
        assert(is_stack(occ, rects[i]));
        assert(occ(rects[i].bottom as int, rects[i].left as int, rects[i].right as int));
        lemma_wall_rect_tiles_are_walls(
            walls,
            width,
            height,
            rects[i],
            rects[i].left as int,
            rects[i].bottom as int,
        );
        let k = choose|k: int|
            0 <= k < walls.len() && (#[trigger] walls[k]).x == rects[i].left && walls[k].y
                == rects[i].bottom;
        assert(walls[k] == c);
    }
    vstd::set_lib::lemma_len_subset(corners.to_set(), walls.to_set());
    walls.lemma_cardinality_of_set();
}

proof fn lemma_run_start(walls: Seq<GridCoords>, x: int, y: int) -> (l: int)
    requires
        0 <= x,
        is_wall(walls, x, y),
    ensures
        0 <= l <= x,
        forall|z: int| l <= z <= x ==> #[trigger] is_wall(walls, z, y),
        l == 0 || !is_wall(walls, l - 1, y),
    decreases x,
{
    if x == 0 || !is_wall(walls, x - 1, y) {
        x
    } else {
        lemma_run_start(walls, x - 1, y)
    }
}

proof fn lemma_run_end(walls: Seq<GridCoords>, width: int, x: int, y: int) -> (r: int)
    requires
        0 <= x < width,
        is_wall(walls, x, y),
        !is_wall(walls, width, y),
    ensures
        x <= r < width,
        forall|z: int| x <= z <= r ==> #[trigger] is_wall(walls, z, y),
        !is_wall(walls, r + 1, y),
    decreases width - x,
{
    if !is_wall(walls, x + 1, y) {
        x
    } else {
        lemma_run_end(walls, width, x + 1, y)
    }
}

proof fn lemma_stack_start(
    walls: Seq<GridCoords>,
    width: int,
    height: int,
    y: int,
    l: int,
    r: int,
) -> (b: int)
    requires
        plate_at(walls, width, height, y, l, r),
    ensures
        0 <= b <= y,
        forall|z: int| b <= z <= y ==> #[trigger] plate_at(walls, width, height, z, l, r),
        !plate_at(walls, width, height, b - 1, l, r),
    decreases y,
{
    if !plate_at(walls, width, height, y - 1, l, r) {
        y
    } else {
        lemma_stack_start(walls, width, height, y - 1, l, r)
    }
}

proof fn lemma_stack_end(
    walls: Seq<GridCoords>,
    width: int,
    height: int,
    y: int,
    l: int,
    r: int,
) -> (t: int)
    requires
        plate_at(walls, width, height, y, l, r),
    ensures
        y <= t < height,
        forall|z: int| y <= z <= t ==> #[trigger] plate_at(walls, width, height, z, l, r),
        !plate_at(walls, width, height, t + 1, l, r),
    decreases height - y,
{
    if !plate_at(walls, width, height, y + 1, l, r) {
        y
    } else {
        lemma_stack_end(walls, width, height, y + 1, l, r)
    }
}

/// Every tile of a wall rectangle is a wall tile of the level.
pub proof fn lemma_wall_rect_tiles_are_walls(
    walls: Seq<GridCoords>,
    width: int,
    height: int,
    rect: WallRect,
    x: int,
    y: int,
)
    requires
        is_wall_rect(walls, width, height, rect),
        covers(rect, x, y),
    ensures
        is_wall(walls, x, y),
        0 <= x < width,
        0 <= y < height,
{
    let occ = level_plates(walls, width, height);
    assert(occ(y, rect.left as int, rect.right as int));
    assert(is_wall(walls, x, y));
}

/// Every wall tile inside a level of at most `i32::MAX` columns lies in a
/// wall rectangle, unless a wall tile sits just right of the last column of
/// its row.
pub proof fn lemma_wall_tile_covered(
    walls: Seq<GridCoords>,
    width: int,
    height: int,
    x: int,
    y: int,
) -> (rect: WallRect)
    requires
        width <= i32::MAX,
        height <= i32::MAX,
        0 <= x < width,
        0 <= y < height,
        is_wall(walls, x, y),
        !is_wall(walls, width, y),
    ensures
        is_wall_rect(walls, width, height, rect),
        covers(rect, x, y),
{
    let occ = level_plates(walls, width, height);
    let l = lemma_run_start(walls, x, y);
    let r = lemma_run_end(walls, width, x, y);
    assert(is_plate(walls, width, y, l, r));
    let b = lemma_stack_start(walls, width, height, y, l, r);
    let t = lemma_stack_end(walls, width, height, y, l, r);
    let rect = WallRect { left: l as i32, right: r as i32, top: t as i32, bottom: b as i32 };
    assert forall|z: int| rect.bottom <= z <= rect.top implies #[trigger] occ(
        z,
        rect.left as int,
        rect.right as int,
    ) by {
        assert(plate_at(walls, width, height, z, l, r));
    }
    rect
}

/// Two plates of one row that share a tile are the same plate.
proof fn lemma_plates_overlap(
    walls: Seq<GridCoords>,
    width: int,
    y: int,
    l1: int,
    r1: int,
    l2: int,
    r2: int,
    x: int,
)
    requires
        is_plate(walls, width, y, l1, r1),
        is_plate(walls, width, y, l2, r2),
        l1 <= x <= r1,
        l2 <= x <= r2,
    ensures
        l1 == l2,
        r1 == r2,
{
    if l1 < l2 {
        assert(is_wall(walls, l2 - 1, y));
    }
    if l2 < l1 {
        assert(is_wall(walls, l1 - 1, y));
    }
    if r1 < r2 {
        assert(is_wall(walls, r1 + 1, y));
    }
    if r2 < r1 {
        assert(is_wall(walls, r2 + 1, y));
    }
}

/// Two wall rectangles that share a tile are the same rectangle.
pub proof fn lemma_wall_rects_disjoint(
    walls: Seq<GridCoords>,
    width: int,
    height: int,
    a: WallRect,
    b: WallRect,
    x: int,
    y: int,
)
    requires
        is_wall_rect(walls, width, height, a),
        is_wall_rect(walls, width, height, b),
        covers(a, x, y),
        covers(b, x, y),
    ensures
        a == b,
{
    let occ = level_plates(walls, width, height);
    assert(occ(y, a.left as int, a.right as int));
    assert(occ(y, b.left as int, b.right as int));
    lemma_plates_overlap(walls, width, y, a.left as int, a.right as int, b.left as int, b.right as int, x);
    if a.bottom < b.bottom {
        assert(occ(b.bottom - 1, a.left as int, a.right as int));
    }
    if b.bottom < a.bottom {
        assert(occ(a.bottom - 1, b.left as int, b.right as int));
    }
    if a.top < b.top {
        assert(occ(a.top + 1, b.left as int, b.right as int));
    }
    if b.top < a.top {
        assert(occ(b.top + 1, a.left as int, a.right as int));
    }
}

/// The wall tiles of one tile layer, keyed by the bits of the layer's entity.
pub struct LayerWalls {
    pub layer: u64,
    pub walls: Vec<GridCoords>,
}

proof fn lemma_push_contains(s: Seq<GridCoords>, x: GridCoords, d: GridCoords)
    ensures
        s.push(x).contains(d) <==> (s.contains(d) || d == x),
{
    if s.contains(d) {
        let i = choose|i: int| 0 <= i < s.len() && s[i] == d;
        assert(s.push(x)[i] == d);
    }
    if d == x {
        assert(s.push(x)[s.len() as int] == d);
    }
    if s.push(x).contains(d) && d != x {
        let i = choose|i: int| 0 <= i < s.push(x).len() && s.push(x)[i] == d;
        assert(s[i] == d);
    }
}

/// Some group of `groups` belongs to `layer`.
pub open spec fn has_layer(groups: Seq<LayerWalls>, layer: u64) -> bool {
    exists|g: int| 0 <= g < groups.len() && (#[trigger] groups[g]).layer == layer
}

/// Groups wall tiles, each given with the layer that holds it, by layer: one
/// group per layer, holding exactly that layer's tiles.
pub fn group_walls_by_layer(tiles: &Vec<(u64, GridCoords)>) -> (groups: Vec<LayerWalls>)
    ensures
        forall|g: int|
            0 <= g < groups@.len() ==> (#[trigger] groups@[g]).walls@.len() > 0 && exists|k: int|
                0 <= k < tiles@.len() && (#[trigger] tiles@[k]).0 == groups@[g].layer,
        forall|g: int, h: int|
            0 <= g < h < groups@.len() ==> (#[trigger] groups@[g]).layer != (
            #[trigger] groups@[h]).layer,
        forall|t: int|
            #![trigger tiles@[t]]
            0 <= t < tiles@.len() ==> has_layer(groups@, tiles@[t].0),
        forall|g: int, c: GridCoords|
            0 <= g < groups@.len() ==> (#[trigger] groups@[g].walls@.contains(c) <==> exists|k: int|
                0 <= k < tiles@.len() && (#[trigger] tiles@[k]).0 == groups@[g].layer && tiles@[k].1
                    == c),
{
    let mut groups: Vec<LayerWalls> = Vec::new();
    // The index of each layer's group.
    let mut index: HashMap<u64, usize> = HashMap::new();
    let n = tiles.len();
    let mut k: usize = 0;
    while k < n
        invariant
            n == tiles@.len(),
            k <= n,
            forall|l: u64| #[trigger] index@.contains_key(l) <==> has_layer(groups@, l),
            forall|l: u64|
                #[trigger] index@.contains_key(l) ==> index@[l] < groups@.len() && groups@[index@[l] as int].layer
                    == l,
            forall|g: int| 0 <= g < groups@.len() ==> (#[trigger] groups@[g]).walls@.len() > 0,
            forall|g: int, h: int|
                0 <= g < h < groups@.len() ==> (#[trigger] groups@[g]).layer != (
                #[trigger] groups@[h]).layer,
            forall|j: int|
                #![trigger tiles@[j]]
                0 <= j < k ==> has_layer(groups@, tiles@[j].0),
            forall|g: int, c: GridCoords|
                0 <= g < groups@.len() ==> (#[trigger] groups@[g].walls@.contains(c) <==> exists|
                    j: int,
                |
                    0 <= j < k && (#[trigger] tiles@[j]).0 == groups@[g].layer && tiles@[j].1
                        == c),
        decreases n - k,
    {
        let (layer, c) = tiles[k];
        let ghost old_groups = groups@;
        let ghost old_index = index@;
        let found = match index.get(&layer) {
            Some(g) => Some(*g),
            None => None,
        };
        match found {
            Some(g) => {
                assert(index@.contains_key(layer));
                groups[g].walls.push(c);
                assert forall|h: int| 0 <= h < groups@.len() implies #[trigger] groups@[h].layer
                    == old_groups[h].layer && groups@[h].walls@.len() > 0 by {
                    if h == g {
                        assert(groups@[h].walls@ == old_groups[h].walls@.push(c));
                    } else {
                        assert(groups@[h] == old_groups[h]);
                    }
                }
                assert forall|l: u64| #[trigger] index@.contains_key(l) <==> has_layer(groups@, l) by {
                    if has_layer(groups@, l) {
                        let h = choose|h: int| 0 <= h < groups@.len() && (#[trigger] groups@[h]).layer == l;
                        assert(old_groups[h].layer == l);
                    }
                    if has_layer(old_groups, l) {
                        let h = choose|h: int| 0 <= h < old_groups.len() && (#[trigger] old_groups[h]).layer == l;
                        assert(groups@[h].layer == l);
                    }
                }
                assert forall|h: int| 0 <= h < groups@.len() && h != g implies groups@[h]
                    == old_groups[h] by {}
                assert forall|h: int, d: GridCoords|
                    0 <= h < groups@.len() implies (#[trigger] groups@[h].walls@.contains(d)
                        <==> exists|j: int|
                        0 <= j < k + 1 && (#[trigger] tiles@[j]).0 == groups@[h].layer && tiles@[j].1
                            == d) by {
                    if h == g {
                        assert(groups@[h].walls@ == old_groups[h].walls@.push(c));
                        lemma_push_contains(old_groups[h].walls@, c, d);
                        if d == c {
                            assert(tiles@[k as int].0 == layer);
                        }
                        if exists|j: int|
                            0 <= j < k + 1 && (#[trigger] tiles@[j]).0 == groups@[h].layer
                                && tiles@[j].1 == d {
                            let j = choose|j: int|
                                0 <= j < k + 1 && (#[trigger] tiles@[j]).0 == groups@[h].layer
                                    && tiles@[j].1 == d;
                            if j < k {
                                assert(old_groups[h].walls@.contains(d));
                            }
                        }
                    } else {
                        assert(groups@[h] == old_groups[h]);
                    }
                }
                assert forall|j: int| #![trigger tiles@[j]] 0 <= j < k + 1 implies has_layer(groups@, tiles@[j].0) by {
                    if j < k {
                        let h = choose|h: int|
                            0 <= h < old_groups.len() && (#[trigger] old_groups[h]).layer
                                == tiles@[j].0;
                        assert(groups@[h].layer == old_groups[h].layer);
                    } else {
                        assert(groups@[g as int].layer == tiles@[j].0);
                    }
                }
            },
            None => {
                assert(!has_layer(groups@, layer));
                assert forall|h: int| 0 <= h < groups@.len() implies (#[trigger] groups@[h]).layer
                    != layer by {}
                index.insert(layer, groups.len());
                let mut walls: Vec<GridCoords> = Vec::new();
                walls.push(c);
                groups.push(LayerWalls { layer, walls });
                let ghost last = old_groups.len() as int;
                assert(groups@[last].walls@.len() == 1);
                assert forall|h: int| 0 <= h < old_groups.len() implies groups@[h] == old_groups[h] by {}
                assert forall|l: u64| #[trigger] index@.contains_key(l) <==> has_layer(groups@, l) by {
                    if l == layer {
                        assert(groups@[last].layer == l);
                    } else {
                        if has_layer(groups@, l) {
                            let h = choose|h: int| 0 <= h < groups@.len() && (#[trigger] groups@[h]).layer == l;
                            assert(h != last);
                            assert(old_groups[h].layer == l);
                        }
                        if has_layer(old_groups, l) {
                            let h = choose|h: int| 0 <= h < old_groups.len() && (#[trigger] old_groups[h]).layer == l;
                            assert(groups@[h].layer == l);
                        }
                    }
                }
                assert forall|l: u64| #[trigger] index@.contains_key(l) implies index@[l] < groups@.len()
                    && groups@[index@[l] as int].layer == l by {
                    if l != layer {
                        assert(old_index.contains_key(l));
                        assert(groups@[old_index[l] as int] == old_groups[old_index[l] as int]);
                    }
                }
                assert forall|h: int, d: GridCoords|
                    0 <= h < groups@.len() implies (#[trigger] groups@[h].walls@.contains(d)
                        <==> exists|j: int|
                        0 <= j < k + 1 && (#[trigger] tiles@[j]).0 == groups@[h].layer && tiles@[j].1
                            == d) by {
                    if h == last {
                        if d == c {
                            assert(tiles@[k as int].0 == layer);
                            assert(groups@[h].walls@[0] == c);
                        }
                        if exists|j: int|
                            0 <= j < k + 1 && (#[trigger] tiles@[j]).0 == groups@[h].layer
                                && tiles@[j].1 == d {
                            let j = choose|j: int|
                                0 <= j < k + 1 && (#[trigger] tiles@[j]).0 == groups@[h].layer
                                    && tiles@[j].1 == d;
                            if j < k {
                                let h2 = choose|h2: int|
                                    0 <= h2 < old_groups.len() && (#[trigger] old_groups[h2]).layer
                                        == tiles@[j].0;
                            }
                            assert(groups@[h].walls@[0] == d);
                        }
                    } else {
                        assert(groups@[h] == old_groups[h]);
                        if exists|j: int|
                            0 <= j < k + 1 && (#[trigger] tiles@[j]).0 == groups@[h].layer
                                && tiles@[j].1 == d {
                            let j = choose|j: int|
                                0 <= j < k + 1 && (#[trigger] tiles@[j]).0 == groups@[h].layer
                                    && tiles@[j].1 == d;
                            if j == k {
                                assert(old_groups[h].layer == layer);
                            }
                        }
                    }
                }
                assert forall|j: int| #![trigger tiles@[j]] 0 <= j < k + 1 implies has_layer(groups@, tiles@[j].0) by {
                    if j < k {
                        let h = choose|h: int|
                            0 <= h < old_groups.len() && (#[trigger] old_groups[h]).layer
                                == tiles@[j].0;
                        assert(groups@[h] == old_groups[h]);
                    } else {
                        assert(groups@[last].layer == tiles@[j].0);
                    }
                }
            },
        }
        k = k + 1;
    }
    assert forall|j: int| #![trigger tiles@[j]] 0 <= j < tiles@.len() implies has_layer(groups@, tiles@[j].0) by {
        assert(j < k);
    }
    assert forall|g: int| 0 <= g < groups@.len() implies (#[trigger] groups@[g]).walls@.len() > 0 && exists|t: int|
        0 <= t < tiles@.len() && (#[trigger] tiles@[t]).0 == groups@[g].layer by {
        assert(groups@[g].walls@.contains(groups@[g].walls@[0]));
    }
    groups
}

} // verus!
