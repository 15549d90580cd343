use crate::geometry::Point;
use crate::grid::Grid;
use vstd::prelude::*;

verus! {

/// Whether `a` and `b` are neighbours: one step apart along one axis.
pub open spec fn adjacent(a: Point, b: Point) -> bool {
    ||| a.y == b.y && (a.x - b.x == 1 || b.x - a.x == 1)
    ||| a.x == b.x && (a.y - b.y == 1 || b.y - a.y == 1)
}

/// Whether `path` is a walk over floor: it is not empty, every point of it
/// is a floor cell of `grid`, and each point is a neighbour of the next.
pub open spec fn is_walk(grid: Grid, path: Seq<Point>) -> bool {
    &&& path.len() > 0
    &&& forall|i: int| 0 <= i < path.len() ==> grid.is_floor(#[trigger] path[i].x as int, path[i].y as int)
    &&& forall|i: int| 0 <= i < path.len() - 1 ==> adjacent(#[trigger] path[i], path[i + 1])
}

/// Whether `path` is a walk over floor from `a` to `b`.
pub open spec fn walk_between(grid: Grid, path: Seq<Point>, a: Point, b: Point) -> bool {
    is_walk(grid, path) && path[0] == a && path[path.len() - 1] == b
}

/// Whether `b` can be reached from `a` by steps over floor cells.
pub open spec fn connected(grid: Grid, a: Point, b: Point) -> bool {
    exists|path: Seq<Point>| walk_between(grid, path, a, b)
}

/// A floor cell is connected to itself.
pub proof fn lemma_connected_reflexive(grid: Grid, a: Point)
    requires
        grid.is_floor(a.x as int, a.y as int),
    ensures
        connected(grid, a, a),
{
    assert(walk_between(grid, seq![a], a, a));
}

/// A walk can be walked backwards.
pub proof fn lemma_connected_symmetric(grid: Grid, a: Point, b: Point)
    requires
        connected(grid, a, b),
    ensures
        connected(grid, b, a),
{
    let path = choose|path: Seq<Point>| walk_between(grid, path, a, b);
    let back = Seq::new(path.len(), |i: int| path[path.len() - 1 - i]);
    assert forall|i: int| 0 <= i < back.len() - 1 implies adjacent(#[trigger] back[i], back[i + 1]) by {
        let k = path.len() - 2 - i;
        assert(adjacent(path[k], path[k + 1]));
    }
    assert(walk_between(grid, back, b, a));
}

/// Two walks that meet can be joined.
pub proof fn lemma_connected_transitive(grid: Grid, a: Point, b: Point, c: Point)
    requires
        connected(grid, a, b),
        connected(grid, b, c),
    ensures
        connected(grid, a, c),
{
    let first = choose|path: Seq<Point>| walk_between(grid, path, a, b);
    let second = choose|path: Seq<Point>| walk_between(grid, path, b, c);
    let head = first.subrange(0, first.len() - 1);
    let joined = head + second;
    assert forall|i: int| 0 <= i < joined.len() implies grid.is_floor(
        #[trigger] joined[i].x as int,
        joined[i].y as int,
    ) by {
        if i < head.len() {
            assert(joined[i] == first[i]);
        } else {
            assert(joined[i] == second[i - head.len()]);
        }
    }
    assert forall|i: int| 0 <= i < joined.len() - 1 implies adjacent(
        #[trigger] joined[i],
        joined[i + 1],
    ) by {
        if i + 1 < head.len() {
            assert(adjacent(first[i], first[i + 1]));
        } else if i + 1 == head.len() {
            assert(adjacent(first[i], first[i + 1]));
            assert(joined[i + 1] == second[0]);
        } else {
            let k = i - head.len();
            assert(adjacent(second[k], second[k + 1]));
        }
    }
    assert(walk_between(grid, joined, a, c));
}

/// Turning more cells into floor keeps every connection.
pub proof fn lemma_connected_monotone(grid: Grid, larger: Grid, a: Point, b: Point)
    requires
        grid.floor_within(larger),
        connected(grid, a, b),
    ensures
        connected(larger, a, b),
{
    let path = choose|path: Seq<Point>| walk_between(grid, path, a, b);
    assert forall|i: int| 0 <= i < path.len() implies larger.is_floor(
        #[trigger] path[i].x as int,
        path[i].y as int,
    ) by {
        assert(grid.is_floor(path[i].x as int, path[i].y as int));
    }
    assert(walk_between(larger, path, a, b));
}

/// The floor of a grid lies within the floor of every grid that is reached
/// from it by turning cells into floor, in any number of steps.
pub proof fn lemma_floor_within_transitive(a: Grid, b: Grid, c: Grid)
    requires
        a.floor_within(b),
        b.floor_within(c),
    ensures
        a.floor_within(c),
{
    assert forall|x: int, y: int| a.is_floor(x, y) implies #[trigger] c.is_floor(x, y) by {
        assert(b.is_floor(x, y));
    }
}

/// A straight run of floor cells along a row connects its two ends.
pub proof fn lemma_row_connected(grid: Grid, x1: i32, x2: i32, y: i32)
    requires
        forall|x: int|
            (if x1 <= x2 {
                x1 <= x <= x2
            } else {
                x2 <= x <= x1
            }) ==> #[trigger] grid.is_floor(x, y as int),
    ensures
        connected(grid, Point { x: x1, y }, Point { x: x2, y }),
    decreases
            if x1 <= x2 {
                x2 - x1
            } else {
                x1 - x2
            },
{
    let a = Point { x: x1, y };
    let b = Point { x: x2, y };
    assert(grid.is_floor(x1 as int, y as int));
    if x1 == x2 {
        lemma_connected_reflexive(grid, a);
    } else {
        let before: i32 = if x1 < x2 {
            (x2 - 1) as i32
        } else {
            (x2 + 1) as i32
        };
        let m = Point { x: before, y };
        lemma_row_connected(grid, x1, before, y);
        assert(grid.is_floor(x2 as int, y as int));
        assert(grid.is_floor(before as int, y as int));
        assert(walk_between(grid, seq![m, b], m, b));
        lemma_connected_transitive(grid, a, m, b);
    }
}

/// A straight run of floor cells along a column connects its two ends.
pub proof fn lemma_column_connected(grid: Grid, y1: i32, y2: i32, x: i32)
    requires
        forall|y: int|
            (if y1 <= y2 {
                y1 <= y <= y2
            } else {
                y2 <= y <= y1
            }) ==> #[trigger] grid.is_floor(x as int, y),
    ensures
        connected(grid, Point { x, y: y1 }, Point { x, y: y2 }),
    decreases
            if y1 <= y2 {
                y2 - y1
            } else {
                y1 - y2
            },
{
    let a = Point { x, y: y1 };
    let b = Point { x, y: y2 };
    assert(grid.is_floor(x as int, y1 as int));
    if y1 == y2 {
        lemma_connected_reflexive(grid, a);
    } else {
        let before: i32 = if y1 < y2 {
            (y2 - 1) as i32
        } else {
            (y2 + 1) as i32
        };
        let m = Point { x, y: before };
        lemma_column_connected(grid, y1, before, x);
        assert(grid.is_floor(x as int, y2 as int));
        assert(grid.is_floor(x as int, before as int));
        assert(walk_between(grid, seq![m, b], m, b));
        lemma_connected_transitive(grid, a, m, b);
    }
}

} // verus!
