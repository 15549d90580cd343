use crate::geometry::Point;
use crate::grid::lemma_filled;
use crate::grid::lemma_index_in_range;
use crate::grid::lemma_index_round_trip;
use crate::grid::lemma_with_tile;
use crate::grid::Grid;
pub use crate::grid::TileType;
use vstd::prelude::*;

verus! {

/// Width of the dungeon, in cells.
pub const SCREEN_WIDTH: i32 = 80;

/// Height of the dungeon, in cells.
pub const SCREEN_HEIGHT: i32 = 50;

/// Why a map could not be built.
#[derive(Clone, Copy, Debug, PartialEq, Eq, Structural)]
pub enum MapError {
    /// The width or the height is zero or negative.
    InvalidDimensions,
    /// No room could be placed within the allowed number of attempts.
    RoomPlacementFailed,
}

/// A rectangular tile map stored row by row.
pub struct TileMap {
    pub width: i32,
    pub height: i32,
    pub tiles: Vec<TileType>,
}

impl View for TileMap {
    type V = Grid;

    open spec fn view(&self) -> Grid {
        Grid { width: self.width as int, height: self.height as int, tiles: self.tiles@ }
    }
}

/// The row-major position of cell `(x, y)` in a grid `width` cells wide.
pub fn map_index(width: i32, x: i32, y: i32) -> (index: usize)
    requires
        0 <= x < width,
        0 <= y,
        y * width + x <= usize::MAX,
    ensures
        index == y * width + x,
        index / (width as usize) == y,
        index % (width as usize) == x,
{
    proof {
        let g = Grid { width: width as int, height: y + 1, tiles: Seq::empty() };
        lemma_index_round_trip(g, x as int, y as int);
        assert(0 <= y * width <= y * width + x) by (nonlinear_arith)
            requires
                0 <= y,
                0 < width,
                0 <= x,
        ;
    }
    (y as usize) * (width as usize) + (x as usize)
}

impl TileMap {
    /// The dimensions are positive and `tiles` holds one tile per cell.
    pub open spec fn wf(&self) -> bool {
        self@.wf()
    }

    /// A map of the given size in which every cell is a wall.
    pub fn new(width: i32, height: i32) -> (result: Result<TileMap, MapError>)
        requires
            width * height <= isize::MAX,
        ensures
            result is Err <==> width <= 0 || height <= 0,
            result is Err ==> result == Err::<TileMap, MapError>(MapError::InvalidDimensions),
            result is Ok ==> result->Ok_0.wf() && result->Ok_0@ == Grid::filled(
                width as int,
                height as int,
                TileType::Wall,
            ),
    {
        if width <= 0 || height <= 0 {
            return Err(MapError::InvalidDimensions);
        }
        assert(0 < width * height) by (nonlinear_arith)
            requires
                width > 0,
                height > 0,
        ;
        let count: usize = (width as usize) * (height as usize);
        let tiles: Vec<TileType> = vec![TileType::Wall; count];
        let map = TileMap { width, height, tiles };
        proof {
            let filled = Grid::filled(width as int, height as int, TileType::Wall);
            lemma_filled(width as int, height as int, TileType::Wall);
            assert(map@.tiles =~= filled.tiles);
        }
        Ok(map)
    }

    /// Whether `point` is a cell of the map.
    pub fn in_bounds(&self, point: Point) -> (inside: bool)
        ensures
            inside == self@.contains(point.x as int, point.y as int),
    {
        point.x >= 0 && point.x < self.width && point.y >= 0 && point.y < self.height
    }

    /// The row-major position of cell `(x, y)`.
    pub fn index_of(&self, x: i32, y: i32) -> (index: usize)
        requires
            self.wf(),
            self@.contains(x as int, y as int),
        ensures
            index == self@.index(x as int, y as int),
            index < self.tiles.len(),
            index / (self.width as usize) == y,
            index % (self.width as usize) == x,
    {
        proof {
            lemma_index_in_range(self@, x as int, y as int);
            assert(self@.index(x as int, y as int) == y * self.width + x);
            assert(self.tiles@.len() == self.tiles.len());
        }
        map_index(self.width, x, y)
    }

    /// The position of `point` in `tiles`, or `None` where `point` lies
    /// outside the map.
    pub fn try_index(&self, point: Point) -> (index: Option<usize>)
        requires
            self.wf(),
        ensures
            index is Some <==> self@.contains(point.x as int, point.y as int),
            index is Some ==> index->Some_0 == self@.index(point.x as int, point.y as int)
                && index->Some_0 < self.tiles.len(),
    {
        if !self.in_bounds(point) {
            None
        } else {
            Some(self.index_of(point.x, point.y))
        }
    }

    /// The tile at `point`, or `None` where `point` lies outside the map.
    pub fn tile_at(&self, point: Point) -> (tile: Option<TileType>)
        requires
            self.wf(),
        ensures
            tile is Some <==> self@.contains(point.x as int, point.y as int),
            tile is Some ==> tile->Some_0 == self@.tile_at(point.x as int, point.y as int),
    {
        match self.try_index(point) {
            Some(index) => Some(self.tiles[index]),
            None => None,
        }
    }

    /// Whether an actor may step onto `point`: the point is a cell of the
    /// map and that cell is floor.
    pub fn can_enter_tile(&self, point: Point) -> (passable: bool)
        requires
            self.wf(),
        ensures
            passable == self@.is_floor(point.x as int, point.y as int),
    {
        match self.tile_at(point) {
            Some(TileType::Floor) => true,
            _ => false,
        }
    }

    /// Replaces the tile at `point`. A point outside the map is ignored.
    pub fn set_tile(&mut self, point: Point, tile: TileType)
        requires
            old(self).wf(),
        ensures
            final(self).wf(),
            old(self)@.contains(point.x as int, point.y as int) ==> final(self)@ == old(self)@.with_tile(
                point.x as int,
                point.y as int,
                tile,
            ),
            !old(self)@.contains(point.x as int, point.y as int) ==> *final(self) == *old(self),
    {
        if let Some(index) = self.try_index(point) {
            proof {
                lemma_with_tile(self@, point.x as int, point.y as int, tile);
            }
            self.tiles.set(index, tile);
        }
    }

    /// Replaces every tile of the map by `tile`.
    pub fn fill(&mut self, tile: TileType)
        requires
            old(self).wf(),
        ensures
            final(self).wf(),
            final(self)@ == Grid::filled(old(self).width as int, old(self).height as int, tile),
    {
        let count = self.tiles.len();
        let mut i: usize = 0;
        while i < count
            invariant
                i <= count,
                count == self.tiles.len(),
                self.width == old(self).width,
                self.height == old(self).height,
                self.wf(),
                forall|k: int| 0 <= k < i ==> self.tiles@[k] == tile,
            decreases count - i,
        {
            self.tiles.set(i, tile);
            i += 1;
        }
        proof {
            let filled = Grid::filled(self.width as int, self.height as int, tile);
            assert(self@.tiles =~= filled.tiles);
        }
    }
}

/// A wall cell cannot be entered, and neither can a point outside the map.
pub proof fn lemma_walls_and_outside_are_closed(g: Grid, x: int, y: int)
    requires
        g.wf(),
    ensures
        !g.contains(x, y) ==> !g.is_floor(x, y),
        g.contains(x, y) && g.tile_at(x, y) == TileType::Wall ==> !g.is_floor(x, y),
{
}

} // verus!
