use vstd::arithmetic::div_mod::lemma_fundamental_div_mod;
use vstd::arithmetic::div_mod::lemma_fundamental_div_mod_converse;
use vstd::arithmetic::div_mod::lemma_mod_pos_bound;
use vstd::prelude::*;

verus! {

/// The state of one cell.
#[derive(Clone, Copy, Debug, PartialEq, Eq, Structural)]
pub enum TileType {
    Floor,
    Wall,
}

/// The mathematical model of a tile map: a `width` by `height` grid whose
/// cell `(x, y)` is stored at position `y * width + x` of `tiles`.
pub ghost struct Grid {
    pub width: int,
    pub height: int,
    pub tiles: Seq<TileType>,
}

impl Grid {
    /// Both dimensions are positive and there is one tile per cell.
    pub open spec fn wf(self) -> bool {
        &&& self.width > 0
        &&& self.height > 0
        &&& self.tiles.len() == self.width * self.height
    }

    /// Whether `(x, y)` is a cell of the grid.
    pub open spec fn contains(self, x: int, y: int) -> bool {
        0 <= x < self.width && 0 <= y < self.height
    }

    /// The row-major position of cell `(x, y)`.
    pub open spec fn index(self, x: int, y: int) -> int {
        y * self.width + x
    }

    /// The tile of cell `(x, y)`.
    pub open spec fn tile_at(self, x: int, y: int) -> TileType {
        self.tiles[self.index(x, y)]
    }

    /// Whether `(x, y)` is a cell of the grid that holds a floor tile.
    pub open spec fn is_floor(self, x: int, y: int) -> bool {
        self.contains(x, y) && self.tile_at(x, y) == TileType::Floor
    }

    /// A grid of the same size as `self`.
    pub open spec fn same_size(self, other: Grid) -> bool {
        self.width == other.width && self.height == other.height
    }

    /// The grid of the given size in which every cell holds `tile`.
    pub open spec fn filled(width: int, height: int, tile: TileType) -> Grid {
        Grid { width, height, tiles: Seq::new((width * height) as nat, |i: int| tile) }
    }

    /// The grid with cell `(x, y)` replaced by `tile`.
    pub open spec fn with_tile(self, x: int, y: int, tile: TileType) -> Grid {
        Grid { tiles: self.tiles.update(self.index(x, y), tile), ..self }
    }

    /// The grid in which every cell of `region` holds a floor tile and every
    /// other cell is as in `self`.
    pub open spec fn paint(self, region: spec_fn(int, int) -> bool) -> Grid {
        Grid {
            tiles: Seq::new(
                self.tiles.len(),
                |i: int|
                    if region(i % self.width, i / self.width) {
                        TileType::Floor
                    } else {
                        self.tiles[i]
                    },
            ),
            ..self
        }
    }

    /// Every floor cell of `self` is a floor cell of `other`.
    pub open spec fn floor_within(self, other: Grid) -> bool {
        &&& self.same_size(other)
        &&& forall|x: int, y: int| self.is_floor(x, y) ==> #[trigger] other.is_floor(x, y)
    }
}

/// The position of a cell lies within the tile sequence.
pub proof fn lemma_index_in_range(g: Grid, x: int, y: int)
    requires
        g.wf(),
        g.contains(x, y),
    ensures
        0 <= g.index(x, y) < g.tiles.len(),
{
    assert(y * g.width + x < g.width * g.height) by (nonlinear_arith)
        requires
            0 <= x < g.width,
            0 <= y < g.height,
    ;
    assert(0 <= y * g.width) by (nonlinear_arith)
        requires
            0 <= y,
            0 < g.width,
    ;
}

/// Row-major positions determine their cell: dividing the position of
/// `(x, y)` by the width gives back `y`, and the remainder gives back `x`.
pub proof fn lemma_index_round_trip(g: Grid, x: int, y: int)
    requires
        g.width > 0,
        0 <= x < g.width,
    ensures
        g.index(x, y) / g.width == y,
        g.index(x, y) % g.width == x,
{
    lemma_fundamental_div_mod_converse(g.index(x, y), g.width, y, x);
}

/// Every position of the tile sequence is the position of exactly one cell.
pub proof fn lemma_cell_of_index(g: Grid, i: int)
    requires
        g.wf(),
        0 <= i < g.tiles.len(),
    ensures
        g.contains(i % g.width, i / g.width),
        g.index(i % g.width, i / g.width) == i,
{
    let w = g.width;
    lemma_fundamental_div_mod(i, w);
    lemma_mod_pos_bound(i, w);
    assert(w * (i / w) == (i / w) * w) by (nonlinear_arith);
    assert(0 <= i / w < g.height) by (nonlinear_arith)
        requires
            0 <= i < w * g.height,
            w > 0,
            i == w * (i / w) + i % w,
            0 <= i % w < w,
    ;
}

/// Distinct cells have distinct positions.
pub proof fn lemma_index_injective(g: Grid, x1: int, y1: int, x2: int, y2: int)
    requires
        g.width > 0,
        0 <= x1 < g.width,
        0 <= x2 < g.width,
        g.index(x1, y1) == g.index(x2, y2),
    ensures
        x1 == x2,
        y1 == y2,
{
    lemma_index_round_trip(g, x1, y1);
    lemma_index_round_trip(g, x2, y2);
}

/// Two well-formed grids of the same size that agree on every cell are equal.
pub proof fn lemma_grid_extensional(a: Grid, b: Grid)
    requires
        a.wf(),
        b.wf(),
        a.same_size(b),
        forall|x: int, y: int| a.contains(x, y) ==> a.tile_at(x, y) == #[trigger] b.tile_at(x, y),
    ensures
        a == b,
{
    assert forall|i: int| 0 <= i < a.tiles.len() implies a.tiles[i] == b.tiles[i] by {
        lemma_cell_of_index(a, i);
        assert(a.tile_at(i % a.width, i / a.width) == b.tile_at(i % a.width, i / a.width));
    }
    assert(a.tiles =~= b.tiles);
}

/// A filled grid is well-formed and holds the fill tile in every cell.
pub proof fn lemma_filled(width: int, height: int, tile: TileType)
    requires
        width > 0,
        height > 0,
    ensures
        Grid::filled(width, height, tile).wf(),
        forall|x: int, y: int| #[trigger]
            Grid::filled(width, height, tile).contains(x, y) ==> Grid::filled(
                width,
                height,
                tile,
            ).tile_at(x, y) == tile,
{
    let g = Grid::filled(width, height, tile);
    assert(width * height > 0) by (nonlinear_arith)
        requires
            width > 0,
            height > 0,
    ;
    assert forall|x: int, y: int| #[trigger] g.contains(x, y) implies g.tile_at(x, y) == tile by {
        lemma_index_in_range(g, x, y);
    }
}

/// Replacing one tile changes that cell and no other.
pub proof fn lemma_with_tile(g: Grid, x: int, y: int, tile: TileType)
    requires
        g.wf(),
        g.contains(x, y),
    ensures
        g.with_tile(x, y, tile).wf(),
        g.with_tile(x, y, tile).same_size(g),
        g.with_tile(x, y, tile).tile_at(x, y) == tile,
        forall|cx: int, cy: int|
            g.contains(cx, cy) && !(cx == x && cy == y) ==> #[trigger] g.with_tile(
                x,
                y,
                tile,
            ).tile_at(cx, cy) == g.tile_at(cx, cy),
{
    let h = g.with_tile(x, y, tile);
    lemma_index_in_range(g, x, y);
    assert forall|cx: int, cy: int| g.contains(cx, cy) && !(cx == x && cy == y) implies #[trigger]
        h.tile_at(cx, cy) == g.tile_at(cx, cy) by {
        lemma_index_in_range(g, cx, cy);
        if g.index(cx, cy) == g.index(x, y) {
            lemma_index_injective(g, cx, cy, x, y);
        }
    }
}

/// Painting a region turns exactly the cells of the region into floor.
pub proof fn lemma_paint(g: Grid, region: spec_fn(int, int) -> bool)
    requires
        g.wf(),
    ensures
        g.paint(region).wf(),
        g.paint(region).same_size(g),
        forall|x: int, y: int|
            g.contains(x, y) ==> #[trigger] g.paint(region).tile_at(x, y) == (if region(x, y) {
                TileType::Floor
            } else {
                g.tile_at(x, y)
            }),
        g.floor_within(g.paint(region)),
{
    let p = g.paint(region);
    assert forall|x: int, y: int| g.contains(x, y) implies #[trigger] p.tile_at(x, y) == (
    if region(x, y) {
        TileType::Floor
    } else {
        g.tile_at(x, y)
    }) by {
        lemma_index_in_range(g, x, y);
        lemma_index_round_trip(g, x, y);
    }
    assert forall|x: int, y: int| g.is_floor(x, y) implies #[trigger] p.is_floor(x, y) by {
        assert(p.tile_at(x, y) == TileType::Floor);
    }
}

} // verus!
