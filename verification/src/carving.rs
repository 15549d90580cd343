use crate::geometry::Point;
use crate::geometry::Rect;
use crate::grid::lemma_paint;
use crate::grid::Grid;
use crate::paths::connected;
use crate::paths::lemma_column_connected;
use crate::paths::lemma_connected_transitive;
use crate::paths::lemma_floor_within_transitive;
use crate::paths::lemma_row_connected;
use vstd::prelude::*;

verus! {

/// Whether `v` lies between `a` and `b`, both included, whichever of the two
/// is the smaller.
pub open spec fn between(a: int, b: int, v: int) -> bool {
    (a <= v && v <= b) || (b <= v && v <= a)
}

/// The cells that carving `room` turns into floor: the cells of the room
/// that do not lie in the first row or the first column of the world.
pub open spec fn room_region(room: Rect) -> spec_fn(int, int) -> bool {
    |x: int, y: int| room.covers(x, y) && x > 0 && y > 0
}

/// The cells of row `y` from column `x1` to column `x2`, both included.
pub open spec fn row_region(x1: int, x2: int, y: int) -> spec_fn(int, int) -> bool {
    |cx: int, cy: int| cy == y && between(x1, x2, cx)
}

/// The cells of column `x` from row `y1` to row `y2`, both included.
pub open spec fn column_region(y1: int, y2: int, x: int) -> spec_fn(int, int) -> bool {
    |cx: int, cy: int| cx == x && between(y1, y2, cy)
}

/// `grid` with the interior of `room` turned into floor. Cells of the room
/// outside the grid are skipped.
pub open spec fn carve_room(grid: Grid, room: Rect) -> Grid {
    grid.paint(room_region(room))
}

/// `grid` with a horizontal tunnel in row `y` between columns `x1` and `x2`.
/// Cells of the tunnel outside the grid are skipped.
pub open spec fn carve_row(grid: Grid, x1: int, x2: int, y: int) -> Grid {
    grid.paint(row_region(x1, x2, y))
}

/// `grid` with a vertical tunnel in column `x` between rows `y1` and `y2`.
/// Cells of the tunnel outside the grid are skipped.
pub open spec fn carve_column(grid: Grid, y1: int, y2: int, x: int) -> Grid {
    grid.paint(column_region(y1, y2, x))
}

/// `grid` with a corridor of two legs from `from` to `to`. With
/// `horizontal_first` the corridor leaves `from` along its row and reaches
/// `to` along its column; otherwise it leaves `from` along its column and
/// reaches `to` along its row.
pub open spec fn carve_corridor(grid: Grid, from: Point, to: Point, horizontal_first: bool) -> Grid {
    if horizontal_first {
        carve_column(
            carve_row(grid, from.x as int, to.x as int, from.y as int),
            from.y as int,
            to.y as int,
            to.x as int,
        )
    } else {
        carve_row(
            carve_column(grid, from.y as int, to.y as int, from.x as int),
            from.x as int,
            to.x as int,
            to.y as int,
        )
    }
}

/// The corner cell that the two legs of a corridor share.
pub open spec fn corridor_corner(from: Point, to: Point, horizontal_first: bool) -> Point {
    if horizontal_first {
        Point { x: to.x, y: from.y }
    } else {
        Point { x: from.x, y: to.y }
    }
}

/// Whether `(x, y)` lies on the corridor from `from` to `to`: on the leg
/// between `from` and the corner, or on the leg between the corner and `to`.
pub open spec fn on_corridor(from: Point, to: Point, horizontal_first: bool, x: int, y: int) -> bool {
    if horizontal_first {
        (y == from.y && between(from.x as int, to.x as int, x)) || (x == to.x && between(
            from.y as int,
            to.y as int,
            y,
        ))
    } else {
        (x == from.x && between(from.y as int, to.y as int, y)) || (y == to.y && between(
            from.x as int,
            to.x as int,
            x,
        ))
    }
}

/// Carving a room changes exactly the cells of its interior.
pub proof fn lemma_carve_room(grid: Grid, room: Rect)
    requires
        grid.wf(),
    ensures
        carve_room(grid, room).wf(),
        carve_room(grid, room).same_size(grid),
        grid.floor_within(carve_room(grid, room)),
        forall|x: int, y: int|
            grid.contains(x, y) ==> #[trigger] carve_room(grid, room).tile_at(x, y) == (
            if room.covers(x, y) && x > 0 && y > 0 {
                crate::grid::TileType::Floor
            } else {
                grid.tile_at(x, y)
            }),
{
    lemma_paint(grid, room_region(room));
}

/// Carving a corridor changes exactly the cells of its two legs: one run
/// along a row and one along a column, which share the corner cell.
pub proof fn lemma_carve_corridor_cells(grid: Grid, from: Point, to: Point, horizontal_first: bool)
    requires
        grid.wf(),
    ensures
        carve_corridor(grid, from, to, horizontal_first).wf(),
        carve_corridor(grid, from, to, horizontal_first).same_size(grid),
        grid.floor_within(carve_corridor(grid, from, to, horizontal_first)),
        forall|x: int, y: int|
            grid.contains(x, y) ==> #[trigger] carve_corridor(
                grid,
                from,
                to,
                horizontal_first,
            ).tile_at(x, y) == (if on_corridor(from, to, horizontal_first, x, y) {
                crate::grid::TileType::Floor
            } else {
                grid.tile_at(x, y)
            }),
        on_corridor(from, to, horizontal_first, from.x as int, from.y as int),
        on_corridor(from, to, horizontal_first, to.x as int, to.y as int),
        on_corridor(
            from,
            to,
            horizontal_first,
            corridor_corner(from, to, horizontal_first).x as int,
            corridor_corner(from, to, horizontal_first).y as int,
        ),
{
    let done = carve_corridor(grid, from, to, horizontal_first);
    if horizontal_first {
        let first = carve_row(grid, from.x as int, to.x as int, from.y as int);
        lemma_paint(grid, row_region(from.x as int, to.x as int, from.y as int));
        lemma_paint(first, column_region(from.y as int, to.y as int, to.x as int));
        lemma_floor_within_transitive(grid, first, done);
        assert forall|x: int, y: int| grid.contains(x, y) implies #[trigger] done.tile_at(x, y) == (
        if on_corridor(from, to, horizontal_first, x, y) {
            crate::grid::TileType::Floor
        } else {
            grid.tile_at(x, y)
        }) by {
            assert(first.contains(x, y));
            assert(first.tile_at(x, y) == (if row_region(
                from.x as int,
                to.x as int,
                from.y as int,
            )(x, y) {
                crate::grid::TileType::Floor
            } else {
                grid.tile_at(x, y)
            }));
        }
    } else {
        let first = carve_column(grid, from.y as int, to.y as int, from.x as int);
        lemma_paint(grid, column_region(from.y as int, to.y as int, from.x as int));
        lemma_paint(first, row_region(from.x as int, to.x as int, to.y as int));
        lemma_floor_within_transitive(grid, first, done);
        assert forall|x: int, y: int| grid.contains(x, y) implies #[trigger] done.tile_at(x, y) == (
        if on_corridor(from, to, horizontal_first, x, y) {
            crate::grid::TileType::Floor
        } else {
            grid.tile_at(x, y)
        }) by {
            assert(first.contains(x, y));
            assert(first.tile_at(x, y) == (if column_region(
                from.y as int,
                to.y as int,
                from.x as int,
            )(x, y) {
                crate::grid::TileType::Floor
            } else {
                grid.tile_at(x, y)
            }));
        }
    }
}

/// A corridor between two cells of the grid connects them.
pub proof fn lemma_corridor_connects(grid: Grid, from: Point, to: Point, horizontal_first: bool)
    requires
        grid.wf(),
        grid.contains(from.x as int, from.y as int),
        grid.contains(to.x as int, to.y as int),
    ensures
        connected(carve_corridor(grid, from, to, horizontal_first), from, to),
{
    let done = carve_corridor(grid, from, to, horizontal_first);
    let corner = corridor_corner(from, to, horizontal_first);
    lemma_carve_corridor_cells(grid, from, to, horizontal_first);
    if horizontal_first {
        assert forall|x: int| between(from.x as int, to.x as int, x) implies #[trigger] done.is_floor(
            x,
            from.y as int,
        ) by {
            assert(grid.contains(x, from.y as int));
            assert(on_corridor(from, to, horizontal_first, x, from.y as int));
            assert(done.tile_at(x, from.y as int) == crate::grid::TileType::Floor);
        }
        lemma_row_connected(done, from.x, to.x, from.y);
        assert forall|y: int| between(from.y as int, to.y as int, y) implies #[trigger] done.is_floor(
            to.x as int,
            y,
        ) by {
            assert(grid.contains(to.x as int, y));
            assert(on_corridor(from, to, horizontal_first, to.x as int, y));
            assert(done.tile_at(to.x as int, y) == crate::grid::TileType::Floor);
        }
        lemma_column_connected(done, from.y, to.y, to.x);
    } else {
        assert forall|y: int| between(from.y as int, to.y as int, y) implies #[trigger] done.is_floor(
            from.x as int,
            y,
        ) by {
            assert(grid.contains(from.x as int, y));
            assert(on_corridor(from, to, horizontal_first, from.x as int, y));
            assert(done.tile_at(from.x as int, y) == crate::grid::TileType::Floor);
        }
        lemma_column_connected(done, from.y, to.y, from.x);
        assert forall|x: int| between(from.x as int, to.x as int, x) implies #[trigger] done.is_floor(
            x,
            to.y as int,
        ) by {
            assert(grid.contains(x, to.y as int));
            assert(on_corridor(from, to, horizontal_first, x, to.y as int));
            assert(done.tile_at(x, to.y as int) == crate::grid::TileType::Floor);
        }
        lemma_row_connected(done, from.x, to.x, to.y);
    }
    lemma_connected_transitive(done, from, corner, to);
}

} // verus!
