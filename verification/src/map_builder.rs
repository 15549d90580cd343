use crate::carving::between;
use crate::carving::carve_column;
use crate::carving::carve_corridor;
use crate::carving::carve_room;
use crate::carving::carve_row;
use crate::carving::column_region;
use crate::carving::lemma_carve_corridor_cells;
use crate::carving::row_region;
use crate::dungeon::blank_dungeon;
use crate::dungeon::candidate_room;
use crate::dungeon::complete;
use crate::dungeon::dig_corridors;
use crate::dungeon::fully_connected;
use crate::dungeon::generate;
use crate::dungeon::layout_sound;
use crate::dungeon::lemma_blank_is_sound;
use crate::dungeon::lemma_corridor_links_next;
use crate::dungeon::lemma_first_room_linked;
use crate::dungeon::lemma_linked_is_fully_connected;
use crate::dungeon::lemma_with_room_sound;
use crate::dungeon::linked;
use crate::dungeon::overlaps_any;
use crate::dungeon::place_rooms;
use crate::dungeon::room_in_range;
use crate::dungeon::rooms_disjoint;
use crate::dungeon::screen_sized;
use crate::dungeon::with_room;
use crate::dungeon::Dungeon;
use crate::dungeon::MAX_ROOM_ATTEMPTS;
use crate::dungeon::MAX_ROOM_SIZE;
use crate::dungeon::MIN_ROOM_SIZE;
use crate::dungeon::NUM_ROOMS;
use crate::dungeon::ROOM_MARGIN;
use crate::map::MapError;
use crate::map::SCREEN_HEIGHT;
use crate::map::SCREEN_WIDTH;
use crate::ordering::lemma_sorted_by_center_x;
use crate::ordering::sort_by_center_x;
use crate::ordering::sorted_by_center_x;
use crate::paths::connected;
use crate::paths::lemma_floor_within_transitive;
use crate::random::draw;
use crate::random::generator_state;
use crate::random::seed_state;
use crate::random::seeded;
use bracket_lib::prelude::RandomNumberGenerator;
use crate::geometry::Point;
use crate::geometry::Rect;
use crate::grid::lemma_grid_extensional;
use crate::grid::lemma_paint;
use crate::grid::lemma_with_tile;
use crate::grid::Grid;
use crate::grid::TileType;
use crate::map::TileMap;
use vstd::prelude::*;

verus! {

/// A dungeon under construction: the map, the rooms placed so far in the
/// order in which they were placed, and the cell where the player starts.
pub struct MapBuilder {
    pub map: TileMap,
    pub rooms: Vec<Rect>,
    pub player_start: Point,
}

impl View for MapBuilder {
    type V = Dungeon;

    open spec fn view(&self) -> Dungeon {
        Dungeon { grid: self.map@, rooms: self.rooms@, start: self.player_start }
    }
}

impl MapBuilder {
    /// Replaces every tile of the map by `tile`.
    pub fn fill(&mut self, tile: TileType)
        requires
            old(self).map.wf(),
        ensures
            final(self).map.wf(),
            final(self).map@ == Grid::filled(
                old(self).map.width as int,
                old(self).map.height as int,
                tile,
            ),
            final(self).rooms == old(self).rooms,
            final(self).player_start == old(self).player_start,
    {
        self.map.fill(tile);
    }

    /// Carves a vertical tunnel in column `x` from row `y1` to row `y2`, both
    /// included and in either order. Cells outside the map are skipped.
    pub fn apply_vertical_tunnel(&mut self, y1: i32, y2: i32, x: i32)
        requires
            old(self).map.wf(),
        ensures
            final(self).map.wf(),
            final(self).map@ == carve_column(old(self).map@, y1 as int, y2 as int, x as int),
            final(self).rooms == old(self).rooms,
            final(self).player_start == old(self).player_start,
    {
        let ghost initial = self.map@;
        let low: i32 = if y1 <= y2 {
            y1
        } else {
            y2
        };
        let high: i32 = if y1 <= y2 {
            y2
        } else {
            y1
        };
        let mut y: i64 = low as i64;
        while y <= high as i64
            invariant
                low <= y <= high + 1,
                low <= high,
                self.map.wf(),
                self.map@.same_size(initial),
                initial.wf(),
                self.rooms == old(self).rooms,
                self.player_start == old(self).player_start,
                forall|cx: int, cy: int|
                    initial.contains(cx, cy) ==> #[trigger] self.map@.tile_at(cx, cy) == (if cx == x
                        && low <= cy < y {
                        TileType::Floor
                    } else {
                        initial.tile_at(cx, cy)
                    }),
            decreases high - y + 1,
        {
            let ghost before = self.map@;
            proof {
                if before.contains(x as int, y as int) {
                    lemma_with_tile(before, x as int, y as int, TileType::Floor);
                }
            }
            self.map.set_tile(Point { x, y: y as i32 }, TileType::Floor);
            y += 1;
        }
        proof {
            let region = column_region(y1 as int, y2 as int, x as int);
            lemma_paint(initial, region);
            assert forall|cx: int, cy: int| initial.contains(cx, cy) implies self.map@.tile_at(
                cx,
                cy,
            ) == #[trigger] initial.paint(region).tile_at(cx, cy) by {
                assert(region(cx, cy) == (cx == x && between(y1 as int, y2 as int, cy)));
            }
            lemma_grid_extensional(self.map@, initial.paint(region));
        }
    }

    /// Carves a horizontal tunnel in row `y` from column `x1` to column `x2`,
    /// both included and in either order. Cells outside the map are skipped.
    pub fn apply_horizontal_tunnel(&mut self, x1: i32, x2: i32, y: i32)
        requires
            old(self).map.wf(),
        ensures
            final(self).map.wf(),
            final(self).map@ == carve_row(old(self).map@, x1 as int, x2 as int, y as int),
            final(self).rooms == old(self).rooms,
            final(self).player_start == old(self).player_start,
    {
        let ghost initial = self.map@;
        let low: i32 = if x1 <= x2 {
            x1
        } else {
            x2
        };
        let high: i32 = if x1 <= x2 {
            x2
        } else {
            x1
        };
        let mut x: i64 = low as i64;
        while x <= high as i64
            invariant
                low <= x <= high + 1,
                low <= high,
                self.map.wf(),
                self.map@.same_size(initial),
                initial.wf(),
                self.rooms == old(self).rooms,
                self.player_start == old(self).player_start,
                forall|cx: int, cy: int|
                    initial.contains(cx, cy) ==> #[trigger] self.map@.tile_at(cx, cy) == (if cy == y
                        && low <= cx < x {
                        TileType::Floor
                    } else {
                        initial.tile_at(cx, cy)
                    }),
            decreases high - x + 1,
        {
            let ghost before = self.map@;
            proof {
                if before.contains(x as int, y as int) {
                    lemma_with_tile(before, x as int, y as int, TileType::Floor);
                }
            }
            self.map.set_tile(Point { x: x as i32, y }, TileType::Floor);
            x += 1;
        }
        proof {
            let region = row_region(x1 as int, x2 as int, y as int);
            lemma_paint(initial, region);
            assert forall|cx: int, cy: int| initial.contains(cx, cy) implies self.map@.tile_at(
                cx,
                cy,
            ) == #[trigger] initial.paint(region).tile_at(cx, cy) by {
                assert(region(cx, cy) == (cy == y && between(x1 as int, x2 as int, cx)));
            }
            lemma_grid_extensional(self.map@, initial.paint(region));
        }
    }

    /// Turns the interior of `room` into floor. Cells of the room in the
    /// first row or column of the map, or outside the map, are skipped.
    pub fn carve_room(&mut self, room: Rect)
        requires
            old(self).map.wf(),
        ensures
            final(self).map.wf(),
            final(self).map@ == carve_room(old(self).map@, room),
            final(self).rooms == old(self).rooms,
            final(self).player_start == old(self).player_start,
    {
        let ghost initial = self.map@;
        let mut y: i32 = room.y1;
        while y < room.y2
            invariant
                room.y1 <= y,
                self.map.wf(),
                self.map@.same_size(initial),
                initial.wf(),
                self.rooms == old(self).rooms,
                self.player_start == old(self).player_start,
                forall|cx: int, cy: int|
                    initial.contains(cx, cy) ==> #[trigger] self.map@.tile_at(cx, cy) == (
                    if room.covers(cx, cy) && cx > 0 && cy > 0 && cy < y {
                        TileType::Floor
                    } else {
                        initial.tile_at(cx, cy)
                    }),
            decreases room.y2 - y,
        {
            let mut x: i32 = room.x1;
            while x < room.x2
                invariant
                    room.y1 <= y < room.y2,
                    room.x1 <= x,
                    self.map.wf(),
                    self.map@.same_size(initial),
                    initial.wf(),
                    self.rooms == old(self).rooms,
                    self.player_start == old(self).player_start,
                    forall|cx: int, cy: int|
                        initial.contains(cx, cy) ==> #[trigger] self.map@.tile_at(cx, cy) == (
                        if room.covers(cx, cy) && cx > 0 && cy > 0 && (cy < y || (cy == y && cx
                            < x)) {
                            TileType::Floor
                        } else {
                            initial.tile_at(cx, cy)
                        }),
                decreases room.x2 - x,
            {
                if x > 0 && y > 0 {
                    let ghost before = self.map@;
                    proof {
                        if before.contains(x as int, y as int) {
                            lemma_with_tile(before, x as int, y as int, TileType::Floor);
                        }
                    }
                    self.map.set_tile(Point { x, y }, TileType::Floor);
                }
                x += 1;
            }
            y += 1;
        }
        proof {
            let region = crate::carving::room_region(room);
            lemma_paint(initial, region);
            assert forall|cx: int, cy: int| initial.contains(cx, cy) implies self.map@.tile_at(
                cx,
                cy,
            ) == #[trigger] initial.paint(region).tile_at(cx, cy) by {
                assert(region(cx, cy) == (room.covers(cx, cy) && cx > 0 && cy > 0));
            }
            lemma_grid_extensional(self.map@, initial.paint(region));
        }
    }

    /// Places `room` unless it overlaps or touches a room placed before:
    /// carves it and appends it to the rooms. Tells whether it was placed.
    pub fn place_room(&mut self, room: Rect) -> (placed: bool)
        requires
            old(self).map.wf(),
        ensures
            final(self).map.wf(),
            placed == !overlaps_any(old(self).rooms@, room),
            final(self)@ == with_room(old(self)@, room),
    {
        let mut overlap = false;
        let mut i: usize = 0;
        while i < self.rooms.len()
            invariant
                i <= self.rooms.len(),
                *self == *old(self),
                overlap == exists|k: int|
                    0 <= k < i && (#[trigger] self.rooms@[k]).spec_intersect(room),
            decreases self.rooms.len() - i,
        {
            if self.rooms[i].intersect(&room) {
                overlap = true;
            }
            i += 1;
        }
        if !overlap {
            self.carve_room(room);
            self.rooms.push(room);
        }
        !overlap
    }

    /// Digs a corridor of two legs between `from` and `to`. With
    /// `horizontal_first` the leg along the row of `from` comes first, then
    /// the leg along the column of `to`; otherwise the leg along the column
    /// of `from`, then the leg along the row of `to`.
    pub fn connect_rooms(&mut self, from: Point, to: Point, horizontal_first: bool)
        requires
            old(self).map.wf(),
        ensures
            final(self).map.wf(),
            final(self).map@ == carve_corridor(old(self).map@, from, to, horizontal_first),
            final(self).rooms == old(self).rooms,
            final(self).player_start == old(self).player_start,
    {
        if horizontal_first {
            self.apply_horizontal_tunnel(from.x, to.x, from.y);
            self.apply_vertical_tunnel(from.y, to.y, to.x);
        } else {
            self.apply_vertical_tunnel(from.y, to.y, from.x);
            self.apply_horizontal_tunnel(from.x, to.x, to.y);
        }
    }

    /// Draws candidate rooms and places those that fit, until the dungeon
    /// has all its rooms or the attempts have run out. Fails in the second
    /// case.
    pub fn build_random_rooms(&mut self, rng: &mut RandomNumberGenerator) -> (result: Result<
        (),
        MapError,
    >)
        requires
            old(self).map.wf(),
        ensures
            final(self).map.wf(),
            final(self)@ == place_rooms(
                old(self)@,
                generator_state(*old(rng)),
                MAX_ROOM_ATTEMPTS as nat,
            ).0,
            generator_state(*final(rng)) == place_rooms(
                old(self)@,
                generator_state(*old(rng)),
                MAX_ROOM_ATTEMPTS as nat,
            ).1,
            result is Ok <==> final(self).rooms@.len() >= NUM_ROOMS,
            result is Err ==> result->Err_0 == MapError::RoomPlacementFailed,
            layout_sound(old(self)@) ==> layout_sound(final(self)@),
            old(self).map@.floor_within(final(self).map@),
    {
        let ghost initial = self@;
        let ghost initial_state = generator_state(*rng);
        let mut attempts: usize = 0;
        proof {
            assert forall|x: int, y: int| initial.grid.is_floor(x, y) implies #[trigger] self.map@.is_floor(x, y) by {}
        }
        while self.rooms.len() < NUM_ROOMS && attempts < MAX_ROOM_ATTEMPTS
            invariant
                attempts <= MAX_ROOM_ATTEMPTS,
                self.map.wf(),
                initial.grid.wf(),
                place_rooms(self@, generator_state(*rng), (MAX_ROOM_ATTEMPTS - attempts) as nat)
                    == place_rooms(initial, initial_state, MAX_ROOM_ATTEMPTS as nat),
                layout_sound(initial) ==> layout_sound(self@),
                initial.grid.floor_within(self.map@),
            decreases MAX_ROOM_ATTEMPTS - attempts,
        {
            let ghost before = self@;
            let ghost state = generator_state(*rng);
            let x = draw(rng, 1, SCREEN_WIDTH - ROOM_MARGIN);
            let y = draw(rng, 1, SCREEN_HEIGHT - ROOM_MARGIN);
            let width = draw(rng, MIN_ROOM_SIZE, MAX_ROOM_SIZE);
            let height = draw(rng, MIN_ROOM_SIZE, MAX_ROOM_SIZE);
            let room = Rect::with_size(x, y, width, height);
            proof {
                assert(room == candidate_room(state).0);
                assert(generator_state(*rng) == candidate_room(state).1);
                assert(room_in_range(room));
                crate::carving::lemma_carve_room(before.grid, room);
                if layout_sound(before) {
                    lemma_with_room_sound(before, room);
                }
            }
            self.place_room(room);
            proof {
                lemma_floor_within_transitive(initial.grid, before.grid, self.map@);
            }
            attempts += 1;
        }
        if self.rooms.len() >= NUM_ROOMS {
            Ok(())
        } else {
            Err(MapError::RoomPlacementFailed)
        }
    }

    /// Digs a corridor from each room to the next, the rooms taken in
    /// ascending order of the column of their center. One draw per corridor
    /// decides which leg comes first.
    pub fn build_corridors(&mut self, rng: &mut RandomNumberGenerator)
        requires
            old(self).map.wf(),
        ensures
            final(self).map.wf(),
            final(self).rooms == old(self).rooms,
            final(self).player_start == old(self).player_start,
            final(self).map@ == dig_corridors(
                old(self).map@,
                generator_state(*old(rng)),
                sorted_by_center_x(old(self).rooms@),
                1,
            ).0,
            generator_state(*final(rng)) == dig_corridors(
                old(self).map@,
                generator_state(*old(rng)),
                sorted_by_center_x(old(self).rooms@),
                1,
            ).1,
            old(self).map@.floor_within(final(self).map@),
            layout_sound(old(self)@) ==> layout_sound(final(self)@),
            layout_sound(old(self)@) ==> forall|i: int|
                0 <= i < old(self).rooms@.len() ==> connected(
                    final(self).map@,
                    old(self).rooms@[0].spec_center(),
                    (#[trigger] old(self).rooms@[i]).spec_center(),
                ),
    {
        let ghost initial = self@;
        let ghost initial_state = generator_state(*rng);
        let sorted = sort_by_center_x(&self.rooms);
        proof {
            lemma_sorted_by_center_x(self.rooms@);
            assert forall|x: int, y: int| initial.grid.is_floor(x, y) implies #[trigger] self.map@.is_floor(x, y) by {}
            if layout_sound(initial) && sorted@.len() > 0 {
                assert(initial.rooms.contains(sorted@[0]));
                lemma_first_room_linked(initial.grid, sorted@);
            }
        }
        let mut i: usize = 1;
        while i < sorted.len()
            invariant
                1 <= i,
                self.map.wf(),
                initial.grid.wf(),
                self.rooms == old(self).rooms,
                self.player_start == old(self).player_start,
                initial.rooms == self.rooms@,
                sorted@ == sorted_by_center_x(initial.rooms),
                sorted@.len() == initial.rooms.len(),
                forall|k: int| 0 <= k < sorted@.len() ==> initial.rooms.contains(#[trigger] sorted@[k]),
                dig_corridors(self.map@, generator_state(*rng), sorted@, i as int) == dig_corridors(
                    initial.grid,
                    initial_state,
                    sorted@,
                    1,
                ),
                initial.grid.floor_within(self.map@),
                layout_sound(initial) ==> screen_sized(self.map@) && linked(
                    self.map@,
                    sorted@,
                    i as int,
                ),
            decreases sorted.len() - i,
        {
            let ghost before = self.map@;
            let from = sorted[i - 1].center();
            let to = sorted[i].center();
            let coin = draw(rng, 0, 2);
            proof {
                lemma_carve_corridor_cells(before, from, to, coin == 1);
                if layout_sound(initial) {
                    assert forall|k: int| 0 <= k < sorted@.len() implies room_in_range(
                        #[trigger] sorted@[k],
                    ) by {
                        assert(initial.rooms.contains(sorted@[k]));
                    }
                    lemma_corridor_links_next(before, sorted@, i as int, coin == 1);
                }
            }
            self.connect_rooms(from, to, coin == 1);
            proof {
                lemma_floor_within_transitive(initial.grid, before, self.map@);
            }
            i += 1;
        }
        proof {
            if layout_sound(initial) {
                assert(layout_sound(self@));
                if initial.rooms.len() > 0 {
                    assert(linked(self.map@, sorted@, initial.rooms.len() as int));
                    lemma_linked_is_fully_connected(self.map@, initial.rooms);
                    let finished = Dungeon {
                        grid: self.map@,
                        rooms: initial.rooms,
                        start: initial.rooms[0].spec_center(),
                    };
                    assert forall|k: int| 0 <= k < initial.rooms.len() implies connected(
                        self.map@,
                        initial.rooms[0].spec_center(),
                        (#[trigger] initial.rooms[k]).spec_center(),
                    ) by {
                        assert(connected(
                            finished.grid,
                            finished.start,
                            finished.rooms[k].spec_center(),
                        ));
                    }
                }
            }
        }
    }

    /// Generates a dungeon with the draws of `rng`: a map of walls into
    /// which rooms and corridors are carved, the rooms in the order in which
    /// they were placed, and the starting cell in the center of the first
    /// room. Fails if the attempts run out before all rooms are placed.
    pub fn new(rng: &mut RandomNumberGenerator) -> (result: Result<MapBuilder, MapError>)
        ensures
            generator_state(*final(rng)) == generate(generator_state(*old(rng))).1,
            result is Ok <==> generate(generator_state(*old(rng))).0 is Some,
            result is Ok ==> result->Ok_0@ == generate(generator_state(*old(rng))).0->Some_0,
            result is Ok ==> result->Ok_0.map.wf() && complete(result->Ok_0@),
            result is Ok ==> result->Ok_0.rooms@.len() == NUM_ROOMS,
            result is Ok ==> rooms_disjoint(result->Ok_0.rooms@),
            result is Ok ==> result->Ok_0.player_start == result->Ok_0.rooms@[0].spec_center(),
            result is Ok ==> fully_connected(result->Ok_0@),
            result is Err ==> result->Err_0 == MapError::RoomPlacementFailed,
    {
        let map = match TileMap::new(SCREEN_WIDTH, SCREEN_HEIGHT) {
            Ok(map) => map,
            Err(error) => {
                return Err(error);
            },
        };
        let mut builder = MapBuilder { map, rooms: Vec::new(), player_start: Point::zero() };
        builder.fill(TileType::Wall);
        proof {
            assert(builder@.rooms =~= blank_dungeon().rooms);
            assert(builder@ == blank_dungeon());
            lemma_blank_is_sound();
        }
        match builder.build_random_rooms(rng) {
            Ok(()) => {},
            Err(error) => {
                return Err(error);
            },
        }
        builder.build_corridors(rng);
        builder.player_start = builder.rooms[0].center();
        proof {
            assert forall|i: int| 0 <= i < builder@.rooms.len() implies connected(
                builder@.grid,
                builder@.start,
                (#[trigger] builder@.rooms[i]).spec_center(),
            ) by {}
        }
        Ok(builder)
    }

    /// Generates the dungeon that belongs to `seed`: the one that a fresh
    /// generator seeded with `seed` builds.
    pub fn from_seed(seed: u64) -> (result: Result<MapBuilder, MapError>)
        ensures
            result is Ok <==> generate(seed_state(seed)).0 is Some,
            result is Ok ==> result->Ok_0@ == generate(seed_state(seed)).0->Some_0,
            result is Ok ==> result->Ok_0.map.wf() && complete(result->Ok_0@),
            result is Err ==> result->Err_0 == MapError::RoomPlacementFailed,
    {
        let mut rng = seeded(seed);
        MapBuilder::new(&mut rng)
    }
}

} // verus!
