use crate::carving::carve_corridor;
use crate::carving::carve_room;
use crate::carving::lemma_carve_corridor_cells;
use crate::carving::lemma_carve_room;
use crate::carving::lemma_corridor_connects;
use crate::geometry::lemma_center_covered;
use crate::geometry::Point;
use crate::geometry::Rect;
use crate::grid::lemma_filled;
use crate::grid::Grid;
use crate::grid::TileType;
use crate::map::SCREEN_HEIGHT;
use crate::map::SCREEN_WIDTH;
use crate::ordering::lemma_sorted_by_center_x;
use crate::ordering::sorted_by_center_x;
use crate::paths::connected;
use crate::paths::lemma_connected_monotone;
use crate::paths::lemma_connected_reflexive;
use crate::paths::lemma_connected_symmetric;
use crate::paths::lemma_connected_transitive;
use crate::random::generator_state;
use crate::random::range_outcome;
use bracket_lib::prelude::RandomNumberGenerator;
use vstd::prelude::*;

verus! {

/// The number of rooms of a dungeon.
pub const NUM_ROOMS: usize = 20;

/// How many candidate rooms are drawn at most before room placement gives up.
pub const MAX_ROOM_ATTEMPTS: usize = 100000;

/// The top-left corner of a room lies at least this far from the right and
/// the bottom edge of the dungeon.
pub const ROOM_MARGIN: i32 = 10;

/// The smallest width and height of a room.
pub const MIN_ROOM_SIZE: i32 = 2;

/// Widths and heights of rooms stay below this.
pub const MAX_ROOM_SIZE: i32 = 10;

/// The mathematical model of a dungeon under construction: the grid, the
/// rooms in the order in which they were placed, and the starting cell.
pub ghost struct Dungeon {
    pub grid: Grid,
    pub rooms: Seq<Rect>,
    pub start: Point,
}

/// Whether `room` is a room that generation can draw: its corner keeps the
/// margin and its size is within the limits.
pub open spec fn room_in_range(room: Rect) -> bool {
    &&& 1 <= room.x1 < SCREEN_WIDTH - ROOM_MARGIN
    &&& 1 <= room.y1 < SCREEN_HEIGHT - ROOM_MARGIN
    &&& MIN_ROOM_SIZE <= room.x2 - room.x1 < MAX_ROOM_SIZE
    &&& MIN_ROOM_SIZE <= room.y2 - room.y1 < MAX_ROOM_SIZE
}

/// Whether `room` overlaps or touches one of `rooms`.
pub open spec fn overlaps_any(rooms: Seq<Rect>, room: Rect) -> bool {
    exists|i: int| 0 <= i < rooms.len() && #[trigger] rooms[i].spec_intersect(room)
}

/// Whether no two of `rooms` overlap or touch.
pub open spec fn rooms_disjoint(rooms: Seq<Rect>) -> bool {
    forall|i: int, j: int|
        0 <= i < rooms.len() && 0 <= j < rooms.len() && i != j ==> !(#[trigger] rooms[i]).spec_intersect(
            #[trigger] rooms[j],
        )
}

/// The candidate room that a generator in state `state` draws, and the
/// state it is left in: the column and the row of the corner, then the
/// width and the height, in four draws.
pub open spec fn candidate_room(state: int) -> (Rect, int) {
    let x = range_outcome(state, 1, (SCREEN_WIDTH - ROOM_MARGIN) as i32);
    let y = range_outcome(x.1, 1, (SCREEN_HEIGHT - ROOM_MARGIN) as i32);
    let width = range_outcome(y.1, MIN_ROOM_SIZE, MAX_ROOM_SIZE);
    let height = range_outcome(width.1, MIN_ROOM_SIZE, MAX_ROOM_SIZE);
    (
        Rect {
            x1: x.0,
            x2: (x.0 + width.0) as i32,
            y1: y.0,
            y2: (y.0 + height.0) as i32,
        },
        height.1,
    )
}

/// `dungeon` after an attempt to place `room`: a room that overlaps or
/// touches a room already placed is dropped; any other room is carved and
/// appended to the rooms.
pub open spec fn with_room(dungeon: Dungeon, room: Rect) -> Dungeon {
    if overlaps_any(dungeon.rooms, room) {
        dungeon
    } else {
        Dungeon {
            grid: carve_room(dungeon.grid, room),
            rooms: dungeon.rooms.push(room),
            start: dungeon.start,
        }
    }
}

/// Room placement: as long as rooms are missing and attempts are left, a
/// candidate room is drawn and placed if it fits. Gives the dungeon and the
/// generator state after the last attempt.
pub open spec fn place_rooms(dungeon: Dungeon, state: int, attempts: nat) -> (Dungeon, int)
    decreases attempts,
{
    if dungeon.rooms.len() >= NUM_ROOMS || attempts == 0 {
        (dungeon, state)
    } else {
        let candidate = candidate_room(state);
        place_rooms(with_room(dungeon, candidate.0), candidate.1, (attempts - 1) as nat)
    }
}

/// Corridor digging: every room of `sorted` from position `next` on is
/// joined to the room in front of it by a corridor between the two centers.
/// One draw per corridor decides which leg comes first: on a 1 the corridor
/// leaves along the row. Gives the grid and the generator state at the end.
pub open spec fn dig_corridors(grid: Grid, state: int, sorted: Seq<Rect>, next: int) -> (Grid, int)
    decreases sorted.len() - next,
{
    if next < 1 || next >= sorted.len() {
        (grid, state)
    } else {
        let coin = range_outcome(state, 0, 2);
        dig_corridors(
            carve_corridor(
                grid,
                sorted[next - 1].spec_center(),
                sorted[next].spec_center(),
                coin.0 == 1,
            ),
            coin.1,
            sorted,
            next + 1,
        )
    }
}

/// The dungeon before anything is placed: all walls, no rooms.
pub open spec fn blank_dungeon() -> Dungeon {
    Dungeon {
        grid: Grid::filled(SCREEN_WIDTH as int, SCREEN_HEIGHT as int, TileType::Wall),
        rooms: Seq::empty(),
        start: Point { x: 0, y: 0 },
    }
}

/// Dungeon generation by a generator in state `state`: rooms are placed on
/// a grid of walls, then corridors are dug between the rooms taken in
/// ascending order of the column of their center, and the player starts in
/// the center of the room that was placed first. Gives the dungeon, or
/// nothing if the attempts ran out before all rooms were placed, and the
/// state the generator is left in.
pub open spec fn generate(state: int) -> (Option<Dungeon>, int) {
    let placed = place_rooms(blank_dungeon(), state, MAX_ROOM_ATTEMPTS as nat);
    if placed.0.rooms.len() != NUM_ROOMS {
        (None, placed.1)
    } else {
        let dug = dig_corridors(placed.0.grid, placed.1, sorted_by_center_x(placed.0.rooms), 1);
        (
            Some(
                Dungeon {
                    grid: dug.0,
                    rooms: placed.0.rooms,
                    start: placed.0.rooms[0].spec_center(),
                },
            ),
            dug.1,
        )
    }
}

/// Whether the grid has the size of the dungeon.
pub open spec fn screen_sized(grid: Grid) -> bool {
    grid.wf() && grid.width == SCREEN_WIDTH && grid.height == SCREEN_HEIGHT
}

/// Whether the rooms of `dungeon` are laid out as generation lays them out:
/// each within the limits, no two overlapping or touching, and the center
/// of each a floor cell.
pub open spec fn layout_sound(dungeon: Dungeon) -> bool {
    &&& screen_sized(dungeon.grid)
    &&& dungeon.rooms.len() <= NUM_ROOMS
    &&& rooms_disjoint(dungeon.rooms)
    &&& forall|i: int| 0 <= i < dungeon.rooms.len() ==> room_in_range(#[trigger] dungeon.rooms[i])
    &&& forall|i: int|
        0 <= i < dungeon.rooms.len() ==> dungeon.grid.is_floor(
            (#[trigger] dungeon.rooms[i]).spec_center().x as int,
            dungeon.rooms[i].spec_center().y as int,
        )
}

/// Whether the first `count` rooms of `sorted` are connected to the first
/// one, center to center.
pub open spec fn linked(grid: Grid, sorted: Seq<Rect>, count: int) -> bool {
    forall|k: int|
        0 <= k < count && k < sorted.len() ==> connected(
            grid,
            sorted[0].spec_center(),
            (#[trigger] sorted[k]).spec_center(),
        )
}

/// Whether the center of every room can be reached from the starting cell
/// by steps over floor.
pub open spec fn fully_connected(dungeon: Dungeon) -> bool {
    forall|i: int|
        0 <= i < dungeon.rooms.len() ==> connected(
            dungeon.grid,
            dungeon.start,
            (#[trigger] dungeon.rooms[i]).spec_center(),
        )
}

/// Whether `dungeon` is a finished dungeon: all rooms are placed and sound,
/// the player starts in the center of the first room, and every room can be
/// reached from there.
pub open spec fn complete(dungeon: Dungeon) -> bool {
    &&& layout_sound(dungeon)
    &&& dungeon.rooms.len() == NUM_ROOMS
    &&& dungeon.start == dungeon.rooms[0].spec_center()
    &&& fully_connected(dungeon)
}

/// The center of a room within the limits is a cell of the room, away from
/// the border of the dungeon.
pub proof fn lemma_center_of_room(room: Rect)
    requires
        room_in_range(room),
    ensures
        room.covers(room.spec_center().x as int, room.spec_center().y as int),
        0 < room.spec_center().x < SCREEN_WIDTH - 1,
        0 < room.spec_center().y < SCREEN_HEIGHT - 1,
{
    lemma_center_covered(room);
}

/// The blank dungeon is sound.
pub proof fn lemma_blank_is_sound()
    ensures
        layout_sound(blank_dungeon()),
{
    lemma_filled(SCREEN_WIDTH as int, SCREEN_HEIGHT as int, TileType::Wall);
}

/// Placing a room within the limits keeps a sound dungeon sound, adds at
/// most one room behind those already placed, and takes no floor away.
pub proof fn lemma_with_room_sound(dungeon: Dungeon, room: Rect)
    requires
        layout_sound(dungeon),
        dungeon.rooms.len() < NUM_ROOMS,
        room_in_range(room),
    ensures
        layout_sound(with_room(dungeon, room)),
        dungeon.grid.floor_within(with_room(dungeon, room).grid),
{
    let after = with_room(dungeon, room);
    lemma_carve_room(dungeon.grid, room);
    if !overlaps_any(dungeon.rooms, room) {
        assert forall|i: int, j: int|
            0 <= i < after.rooms.len() && 0 <= j < after.rooms.len() && i != j implies !(
        #[trigger] after.rooms[i]).spec_intersect(#[trigger] after.rooms[j]) by {
            if i < dungeon.rooms.len() && j < dungeon.rooms.len() {
                assert(!dungeon.rooms[i].spec_intersect(dungeon.rooms[j]));
            } else if i < dungeon.rooms.len() {
                assert(!dungeon.rooms[i].spec_intersect(room));
            } else {
                assert(!dungeon.rooms[j].spec_intersect(room));
            }
        }
        assert forall|i: int| 0 <= i < after.rooms.len() implies after.grid.is_floor(
            (#[trigger] after.rooms[i]).spec_center().x as int,
            after.rooms[i].spec_center().y as int,
        ) by {
            let c = after.rooms[i].spec_center();
            if i < dungeon.rooms.len() {
                assert(after.rooms[i] == dungeon.rooms[i]);
                assert(dungeon.grid.is_floor(c.x as int, c.y as int));
            } else {
                lemma_center_of_room(room);
                assert(after.grid.tile_at(c.x as int, c.y as int) == TileType::Floor);
            }
        }
    }
}

/// Digging a corridor to the next room of `sorted` links that room to the
/// first, keeps the rooms before it linked, and takes no floor away.
pub proof fn lemma_corridor_links_next(grid: Grid, sorted: Seq<Rect>, next: int, horizontal_first: bool)
    requires
        screen_sized(grid),
        1 <= next < sorted.len(),
        forall|i: int| 0 <= i < sorted.len() ==> room_in_range(#[trigger] sorted[i]),
        linked(grid, sorted, next),
    ensures
        screen_sized(
            carve_corridor(
                grid,
                sorted[next - 1].spec_center(),
                sorted[next].spec_center(),
                horizontal_first,
            ),
        ),
        grid.floor_within(
            carve_corridor(
                grid,
                sorted[next - 1].spec_center(),
                sorted[next].spec_center(),
                horizontal_first,
            ),
        ),
        linked(
            carve_corridor(
                grid,
                sorted[next - 1].spec_center(),
                sorted[next].spec_center(),
                horizontal_first,
            ),
            sorted,
            next + 1,
        ),
{
    let from = sorted[next - 1].spec_center();
    let to = sorted[next].spec_center();
    let after = carve_corridor(grid, from, to, horizontal_first);
    lemma_center_of_room(sorted[next - 1]);
    lemma_center_of_room(sorted[next]);
    lemma_carve_corridor_cells(grid, from, to, horizontal_first);
    lemma_corridor_connects(grid, from, to, horizontal_first);
    assert forall|k: int| 0 <= k < next + 1 && k < sorted.len() implies connected(
        after,
        sorted[0].spec_center(),
        (#[trigger] sorted[k]).spec_center(),
    ) by {
        if k < next {
            lemma_connected_monotone(grid, after, sorted[0].spec_center(), sorted[k].spec_center());
        } else {
            lemma_connected_monotone(grid, after, sorted[0].spec_center(), from);
            lemma_connected_transitive(after, sorted[0].spec_center(), from, to);
        }
    }
}

/// Once all rooms are linked in sorted order, every room can be reached
/// from the center of the room placed first.
pub proof fn lemma_linked_is_fully_connected(grid: Grid, rooms: Seq<Rect>)
    requires
        rooms.len() > 0,
        linked(grid, sorted_by_center_x(rooms), rooms.len() as int),
    ensures
        fully_connected(Dungeon { grid, rooms, start: rooms[0].spec_center() }),
{
    let sorted = sorted_by_center_x(rooms);
    let hub = sorted[0].spec_center();
    let start = rooms[0].spec_center();
    lemma_sorted_by_center_x(rooms);
    assert(sorted.contains(rooms[0]));
    let s = choose|s: int| 0 <= s < sorted.len() && sorted[s] == rooms[0];
    assert(connected(grid, hub, sorted[s].spec_center()));
    lemma_connected_symmetric(grid, hub, start);
    assert forall|i: int| 0 <= i < rooms.len() implies connected(
        grid,
        start,
        (#[trigger] rooms[i]).spec_center(),
    ) by {
        assert(sorted.contains(rooms[i]));
        let k = choose|k: int| 0 <= k < sorted.len() && sorted[k] == rooms[i];
        assert(connected(grid, hub, sorted[k].spec_center()));
        lemma_connected_transitive(grid, start, hub, rooms[i].spec_center());
    }
}

/// A floor cell is linked to itself: the first room of a sorted sequence is
/// always linked.
pub proof fn lemma_first_room_linked(grid: Grid, sorted: Seq<Rect>)
    requires
        sorted.len() > 0,
        grid.is_floor(sorted[0].spec_center().x as int, sorted[0].spec_center().y as int),
    ensures
        linked(grid, sorted, 1),
{
    lemma_connected_reflexive(grid, sorted[0].spec_center());
}

/// Generation is deterministic: two generators in the same state build the
/// same dungeon, or both fail, and are left in the same state.
pub proof fn lemma_generation_is_deterministic(
    first: RandomNumberGenerator,
    second: RandomNumberGenerator,
)
    requires
        generator_state(first) == generator_state(second),
    ensures
        generate(generator_state(first)) == generate(generator_state(second)),
{
}

/// A finished dungeon has all its rooms, no two of which overlap or touch.
pub proof fn lemma_complete_rooms(dungeon: Dungeon)
    requires
        complete(dungeon),
    ensures
        dungeon.rooms.len() == NUM_ROOMS,
        forall|i: int, j: int|
            0 <= i < NUM_ROOMS && 0 <= j < NUM_ROOMS && i != j ==> !(#[trigger] dungeon.rooms[i]).spec_intersect(
                #[trigger] dungeon.rooms[j],
            ),
{
}

} // verus!
