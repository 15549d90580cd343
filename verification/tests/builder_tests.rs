use bracket_lib::prelude::RandomNumberGenerator;
use dungeon_crawler::dungeon::MAX_ROOM_ATTEMPTS;
use dungeon_crawler::dungeon::NUM_ROOMS;
use dungeon_crawler::geometry::Point;
use dungeon_crawler::geometry::Rect;
use dungeon_crawler::map::MapError;
use dungeon_crawler::map::TileMap;
use dungeon_crawler::map::TileType;
use dungeon_crawler::map_builder::MapBuilder;
use dungeon_crawler::ordering::sort_by_center_x;

const WIDTH: i32 = 80;
const HEIGHT: i32 = 50;

fn build(seed: u64) -> MapBuilder {
    let mut rng = RandomNumberGenerator::seeded(seed);
    match MapBuilder::new(&mut rng) {
        Ok(builder) => builder,
        Err(_) => panic!("generation failed for seed {}", seed),
    }
}

fn blank_builder(width: i32, height: i32) -> MapBuilder {
    let map = match TileMap::new(width, height) {
        Ok(map) => map,
        Err(_) => panic!("valid size"),
    };
    MapBuilder { map, rooms: Vec::new(), player_start: Point::zero() }
}

fn floor_cells(map: &TileMap) -> Vec<(i32, i32)> {
    let mut cells = Vec::new();
    for y in 0..map.height {
        for x in 0..map.width {
            if map.tiles[(y * map.width + x) as usize] == TileType::Floor {
                cells.push((x, y));
            }
        }
    }
    cells
}

fn carve(tiles: &mut Vec<TileType>, x: i32, y: i32) {
    if x >= 0 && x < WIDTH && y >= 0 && y < HEIGHT {
        tiles[(y * WIDTH + x) as usize] = TileType::Floor;
    }
}

fn carve_row(tiles: &mut Vec<TileType>, x1: i32, x2: i32, y: i32) {
    for x in x1.min(x2)..=x1.max(x2) {
        carve(tiles, x, y);
    }
}

fn carve_column(tiles: &mut Vec<TileType>, y1: i32, y2: i32, x: i32) {
    for y in y1.min(y2)..=y1.max(y2) {
        carve(tiles, x, y);
    }
}

// The same generation written directly against the outside crate: its
// rectangles, its callbacks, and the standard library's stable sort.
fn generate_with_outside_crate(seed: u64) -> (Vec<TileType>, Vec<bracket_lib::prelude::Rect>, Point) {
    let mut rng = RandomNumberGenerator::seeded(seed);
    let mut tiles = vec![TileType::Wall; (WIDTH * HEIGHT) as usize];
    let mut rooms: Vec<bracket_lib::prelude::Rect> = Vec::new();
    while rooms.len() < 20 {
        let room = bracket_lib::prelude::Rect::with_size(
            rng.range(1, WIDTH - 10),
            rng.range(1, HEIGHT - 10),
            rng.range(2, 10),
            rng.range(2, 10),
        );
        let mut overlap = false;
        for r in rooms.iter() {
            if r.intersect(&room) {
                overlap = true;
            }
        }
        if !overlap {
            room.for_each(|p| {
                if p.x > 0 && p.x < WIDTH && p.y > 0 && p.y < HEIGHT {
                    tiles[(p.y * WIDTH + p.x) as usize] = TileType::Floor;
                }
            });
            rooms.push(room);
        }
    }
    let mut sorted = rooms.clone();
    sorted.sort_by(|a, b| a.center().x.cmp(&b.center().x));
    for i in 1..sorted.len() {
        let prev = sorted[i - 1].center();
        let new = sorted[i].center();
        if rng.range(0, 2) == 1 {
            carve_row(&mut tiles, prev.x, new.x, prev.y);
            carve_column(&mut tiles, prev.y, new.y, new.x);
        } else {
            carve_column(&mut tiles, prev.y, new.y, prev.x);
            carve_row(&mut tiles, prev.x, new.x, new.y);
        }
    }
    let start = rooms[0].center();
    (tiles, rooms, Point::new(start.x, start.y))
}

fn reachable_from(map: &TileMap, start: Point) -> Vec<bool> {
    let mut seen = vec![false; map.tiles.len()];
    let mut queue = vec![start];
    if map.can_enter_tile(start) {
        seen[(start.y * map.width + start.x) as usize] = true;
    }
    while let Some(p) = queue.pop() {
        for &(dx, dy) in [(1, 0), (-1, 0), (0, 1), (0, -1)].iter() {
            let q = Point::new(p.x + dx, p.y + dy);
            if map.can_enter_tile(q) {
                let index = (q.y * map.width + q.x) as usize;
                if !seen[index] {
                    seen[index] = true;
                    queue.push(q);
                }
            }
        }
    }
    seen
}

#[test]
fn same_seed_gives_the_same_dungeon() {
    for seed in [0u64, 1, 42, 12345, u64::MAX].iter() {
        let a = build(*seed);
        let b = build(*seed);
        assert!(a.map.tiles == b.map.tiles);
        assert_eq!(a.rooms, b.rooms);
        assert_eq!(a.player_start, b.player_start);
    }
}

#[test]
fn seed_42_gives_identical_tiles_on_every_run() {
    let first = build(42);
    assert_eq!(first.map.width, 80);
    assert_eq!(first.map.height, 50);
    assert_eq!(first.map.tiles.len(), 4000);
    assert_eq!(first.rooms.len(), 20);
    for _ in 0..5 {
        let again = build(42);
        assert!(first.map.tiles == again.map.tiles);
        assert_eq!(first.rooms, again.rooms);
        assert_eq!(first.player_start, again.player_start);
    }
}

#[test]
fn different_seeds_give_different_dungeons() {
    let a = build(1);
    let b = build(2);
    assert!(a.map.tiles != b.map.tiles || a.rooms != b.rooms);
}

#[test]
fn from_seed_is_generation_with_a_seeded_generator() {
    for seed in [0u64, 7, 42, 99, 2024].iter() {
        let direct = build(*seed);
        let seeded = match MapBuilder::from_seed(*seed) {
            Ok(builder) => builder,
            Err(_) => panic!("generation failed"),
        };
        assert!(direct.map.tiles == seeded.map.tiles);
        assert_eq!(direct.rooms, seeded.rooms);
        assert_eq!(direct.player_start, seeded.player_start);
    }
}

#[test]
fn generation_leaves_the_generator_where_the_draws_left_it() {
    let mut used = RandomNumberGenerator::seeded(42);
    let builder = match MapBuilder::new(&mut used) {
        Ok(builder) => builder,
        Err(_) => panic!("generation failed"),
    };
    assert_eq!(builder.rooms.len(), 20);
    let mut fresh = RandomNumberGenerator::seeded(42);
    let mut rooms: Vec<bracket_lib::prelude::Rect> = Vec::new();
    while rooms.len() < 20 {
        let room = bracket_lib::prelude::Rect::with_size(
            fresh.range(1, 70),
            fresh.range(1, 40),
            fresh.range(2, 10),
            fresh.range(2, 10),
        );
        if !rooms.iter().any(|r| r.intersect(&room)) {
            rooms.push(room);
        }
    }
    for _ in 1..20 {
        fresh.range(0, 2);
    }
    for _ in 0..10 {
        assert_eq!(used.range(0, 1000000), fresh.range(0, 1000000));
    }
}

#[test]
fn generation_agrees_with_the_outside_crate() {
    for seed in 0..60u64 {
        let library = build(seed);
        let (tiles, rooms, start) = generate_with_outside_crate(seed);
        assert!(library.map.tiles == tiles, "tiles differ for seed {}", seed);
        assert_eq!(library.rooms.len(), rooms.len());
        for (a, b) in library.rooms.iter().zip(rooms.iter()) {
            assert_eq!((a.x1, a.y1, a.x2, a.y2), (b.x1, b.y1, b.x2, b.y2));
        }
        assert_eq!(library.player_start, start);
    }
}

#[test]
fn dungeon_has_exactly_twenty_rooms() {
    assert_eq!(NUM_ROOMS, 20);
    for seed in 0..40u64 {
        assert_eq!(build(seed).rooms.len(), NUM_ROOMS);
    }
}

#[test]
fn rooms_do_not_overlap_or_touch() {
    for seed in 0..40u64 {
        let builder = build(seed);
        for i in 0..builder.rooms.len() {
            for j in 0..builder.rooms.len() {
                if i != j {
                    assert!(!builder.rooms[i].intersect(&builder.rooms[j]));
                }
            }
        }
    }
}

#[test]
fn rooms_stay_within_the_limits() {
    for seed in 0..40u64 {
        for room in build(seed).rooms.iter() {
            assert!(1 <= room.x1 && room.x1 < 70);
            assert!(1 <= room.y1 && room.y1 < 40);
            assert!(2 <= room.x2 - room.x1 && room.x2 - room.x1 < 10);
            assert!(2 <= room.y2 - room.y1 && room.y2 - room.y1 < 10);
        }
    }
}

#[test]
fn start_is_the_center_of_the_first_room_placed() {
    let mut some_start_is_not_leftmost = false;
    for seed in 0..40u64 {
        let builder = build(seed);
        assert_eq!(builder.player_start, builder.rooms[0].center());
        let sorted = sort_by_center_x(&builder.rooms);
        if sorted[0] != builder.rooms[0] {
            some_start_is_not_leftmost = true;
        }
    }
    assert!(some_start_is_not_leftmost);
}

#[test]
fn every_room_center_is_reachable_from_the_start() {
    for seed in 0..40u64 {
        let builder = build(seed);
        let seen = reachable_from(&builder.map, builder.player_start);
        for room in builder.rooms.iter() {
            let c = room.center();
            assert!(builder.map.can_enter_tile(c));
            assert!(seen[(c.y * builder.map.width + c.x) as usize], "seed {}", seed);
        }
    }
}

#[test]
fn room_interiors_are_floor() {
    let builder = build(42);
    for room in builder.rooms.iter() {
        for y in room.y1..room.y2 {
            for x in room.x1..room.x2 {
                assert!(builder.map.can_enter_tile(Point::new(x, y)));
            }
        }
    }
}

#[test]
fn border_of_the_dungeon_stays_wall() {
    for seed in 0..20u64 {
        let builder = build(seed);
        for x in 0..WIDTH {
            assert!(!builder.map.can_enter_tile(Point::new(x, 0)));
            assert!(!builder.map.can_enter_tile(Point::new(x, HEIGHT - 1)));
        }
        for y in 0..HEIGHT {
            assert!(!builder.map.can_enter_tile(Point::new(0, y)));
            assert!(!builder.map.can_enter_tile(Point::new(WIDTH - 1, y)));
        }
    }
}

#[test]
fn place_room_carves_and_appends() {
    let mut builder = blank_builder(80, 50);
    let room = Rect::with_size(3, 4, 2, 3);
    assert!(builder.place_room(room));
    assert_eq!(builder.rooms, vec![room]);
    assert_eq!(floor_cells(&builder.map), vec![(3, 4), (4, 4), (3, 5), (4, 5), (3, 6), (4, 6)]);
}

#[test]
fn place_room_rejects_overlapping_and_touching_rooms() {
    let mut builder = blank_builder(80, 50);
    assert!(builder.place_room(Rect::with_size(10, 10, 5, 5)));
    let tiles = builder.map.tiles.clone();
    assert!(!builder.place_room(Rect::with_size(12, 12, 5, 5)));
    assert!(!builder.place_room(Rect::with_size(15, 10, 3, 3)));
    assert!(!builder.place_room(Rect::with_size(7, 7, 3, 3)));
    assert!(builder.map.tiles == tiles);
    assert_eq!(builder.rooms.len(), 1);
    assert!(builder.place_room(Rect::with_size(16, 10, 3, 3)));
    assert_eq!(builder.rooms, vec![Rect::with_size(10, 10, 5, 5), Rect::with_size(16, 10, 3, 3)]);
}

#[test]
fn carve_room_skips_the_first_row_and_column_and_the_outside() {
    let mut builder = blank_builder(5, 4);
    builder.carve_room(Rect::with_size(-1, -1, 3, 3));
    assert_eq!(floor_cells(&builder.map), vec![(1, 1)]);
    let mut builder = blank_builder(5, 4);
    builder.carve_room(Rect::with_size(3, 2, 10, 10));
    assert_eq!(floor_cells(&builder.map), vec![(3, 2), (4, 2), (3, 3), (4, 3)]);
    let mut builder = blank_builder(5, 4);
    builder.carve_room(Rect::with_size(2, 2, 0, 5));
    builder.carve_room(Rect { x1: 3, x2: 1, y1: 1, y2: 3 });
    assert_eq!(floor_cells(&builder.map), vec![]);
}

#[test]
fn tunnels_include_both_ends_in_either_order() {
    let mut builder = blank_builder(10, 10);
    builder.apply_horizontal_tunnel(2, 5, 3);
    assert_eq!(floor_cells(&builder.map), vec![(2, 3), (3, 3), (4, 3), (5, 3)]);
    let mut other = blank_builder(10, 10);
    other.apply_horizontal_tunnel(5, 2, 3);
    assert!(other.map.tiles == builder.map.tiles);
    let mut builder = blank_builder(10, 10);
    builder.apply_vertical_tunnel(7, 4, 1);
    assert_eq!(floor_cells(&builder.map), vec![(1, 4), (1, 5), (1, 6), (1, 7)]);
    let mut other = blank_builder(10, 10);
    other.apply_vertical_tunnel(4, 7, 1);
    assert!(other.map.tiles == builder.map.tiles);
    let mut single = blank_builder(10, 10);
    single.apply_vertical_tunnel(4, 4, 1);
    assert_eq!(floor_cells(&single.map), vec![(1, 4)]);
}

#[test]
fn tunnels_are_clipped_at_the_border() {
    let mut builder = blank_builder(4, 3);
    builder.apply_horizontal_tunnel(-5, 9, 1);
    assert_eq!(floor_cells(&builder.map), vec![(0, 1), (1, 1), (2, 1), (3, 1)]);
    builder.apply_horizontal_tunnel(0, 3, 3);
    builder.apply_horizontal_tunnel(0, 3, -1);
    builder.apply_vertical_tunnel(0, 2, 4);
    builder.apply_vertical_tunnel(i32::MIN, i32::MIN + 3, 1);
    builder.apply_horizontal_tunnel(i32::MAX - 3, i32::MAX, 1);
    assert_eq!(floor_cells(&builder.map), vec![(0, 1), (1, 1), (2, 1), (3, 1)]);
    builder.apply_vertical_tunnel(-2, 7, 2);
    assert_eq!(floor_cells(&builder.map), vec![(2, 0), (0, 1), (1, 1), (2, 1), (3, 1), (2, 2)]);
}

#[test]
fn corridor_is_one_row_run_and_one_column_run_sharing_a_corner() {
    let from = Point::new(2, 3);
    let to = Point::new(6, 8);
    let mut horizontal_first = blank_builder(10, 10);
    horizontal_first.connect_rooms(from, to, true);
    let mut expected: Vec<(i32, i32)> = vec![(2, 3), (3, 3), (4, 3), (5, 3), (6, 3), (6, 4), (6, 5), (6, 6), (6, 7), (6, 8)];
    expected.sort_by_key(|c| (c.1, c.0));
    assert_eq!(floor_cells(&horizontal_first.map), expected);
    let mut vertical_first = blank_builder(10, 10);
    vertical_first.connect_rooms(from, to, false);
    let mut expected: Vec<(i32, i32)> = vec![(2, 3), (2, 4), (2, 5), (2, 6), (2, 7), (2, 8), (3, 8), (4, 8), (5, 8), (6, 8)];
    expected.sort_by_key(|c| (c.1, c.0));
    assert_eq!(floor_cells(&vertical_first.map), expected);
    assert_eq!(floor_cells(&horizontal_first.map).len(), 4 + 5 + 1);
    assert!(horizontal_first.map.can_enter_tile(Point::new(6, 3)));
    assert!(!horizontal_first.map.can_enter_tile(Point::new(2, 8)));
    assert!(vertical_first.map.can_enter_tile(Point::new(2, 8)));
    assert!(!vertical_first.map.can_enter_tile(Point::new(6, 3)));
}

#[test]
fn corridor_towards_the_upper_left() {
    let mut builder = blank_builder(10, 10);
    builder.connect_rooms(Point::new(7, 6), Point::new(4, 2), true);
    let mut expected: Vec<(i32, i32)> = vec![(4, 6), (5, 6), (6, 6), (7, 6), (4, 2), (4, 3), (4, 4), (4, 5)];
    expected.sort_by_key(|c| (c.1, c.0));
    assert_eq!(floor_cells(&builder.map), expected);
}

#[test]
fn corridors_use_one_draw_per_pair_of_rooms() {
    let mut builder = blank_builder(80, 50);
    assert!(builder.place_room(Rect::with_size(5, 5, 4, 4)));
    assert!(builder.place_room(Rect::with_size(30, 20, 6, 4)));
    let mut rng = RandomNumberGenerator::seeded(9);
    let mut shadow = RandomNumberGenerator::seeded(9);
    let tiles_before = floor_cells(&builder.map).len();
    builder.build_corridors(&mut rng);
    let coin = shadow.range(0, 2);
    assert_eq!(rng.range(0, 1000), shadow.range(0, 1000));
    let from = Point::new(7, 7);
    let to = Point::new(33, 22);
    assert_eq!(builder.rooms[0].center(), from);
    assert_eq!(builder.rooms[1].center(), to);
    let mut expected = blank_builder(80, 50);
    expected.place_room(Rect::with_size(5, 5, 4, 4));
    expected.place_room(Rect::with_size(30, 20, 6, 4));
    expected.connect_rooms(from, to, coin == 1);
    assert!(builder.map.tiles == expected.map.tiles);
    assert!(floor_cells(&builder.map).len() > tiles_before);
    let corner = if coin == 1 { Point::new(33, 7) } else { Point::new(7, 22) };
    let other = if coin == 1 { Point::new(7, 22) } else { Point::new(33, 7) };
    assert!(builder.map.can_enter_tile(corner));
    assert!(!builder.map.can_enter_tile(other));
}

#[test]
fn build_random_rooms_stops_at_twenty() {
    let mut builder = blank_builder(80, 50);
    let mut rng = RandomNumberGenerator::seeded(3);
    assert!(builder.build_random_rooms(&mut rng).is_ok());
    assert_eq!(builder.rooms.len(), 20);
    let tiles = builder.map.tiles.clone();
    let mut shadow = rng.clone();
    assert!(builder.build_random_rooms(&mut rng).is_ok());
    assert_eq!(builder.rooms.len(), 20);
    assert!(builder.map.tiles == tiles);
    assert_eq!(rng.range(0, 1000), shadow.range(0, 1000));
}

#[test]
fn build_random_rooms_fails_when_nothing_fits() {
    assert_eq!(MAX_ROOM_ATTEMPTS, 100000);
    let mut builder = blank_builder(80, 50);
    builder.rooms.push(Rect::with_size(-10, -10, 200, 200));
    let mut rng = RandomNumberGenerator::seeded(5);
    let result = builder.build_random_rooms(&mut rng);
    assert!(matches!(result, Err(MapError::RoomPlacementFailed)));
    assert_eq!(builder.rooms.len(), 1);
    assert_eq!(floor_cells(&builder.map), vec![]);
}

#[test]
fn fill_on_the_builder_replaces_every_tile() {
    let mut builder = build(42);
    let rooms = builder.rooms.clone();
    let start = builder.player_start;
    builder.fill(TileType::Wall);
    assert!(builder.map.tiles.iter().all(|t| *t == TileType::Wall));
    assert_eq!(builder.map.tiles.len(), 4000);
    builder.fill(TileType::Floor);
    assert!(builder.map.tiles.iter().all(|t| *t == TileType::Floor));
    assert_eq!(builder.rooms, rooms);
    assert_eq!(builder.player_start, start);
}

#[test]
fn sorting_agrees_with_the_stable_sort() {
    let mut rooms: Vec<Rect> = Vec::new();
    let xs = [30, 5, 17, 5, 44, 17, 5, 60, 1, 30];
    for (i, x) in xs.iter().enumerate() {
        rooms.push(Rect::with_size(*x, i as i32, 3 + (i as i32 % 2), 2));
    }
    let sorted = sort_by_center_x(&rooms);
    let mut expected = rooms.clone();
    expected.sort_by(|a, b| a.center().x.cmp(&b.center().x));
    assert_eq!(sorted, expected);
    assert_eq!(sort_by_center_x(&Vec::new()), Vec::new());
    for seed in 0..20u64 {
        let builder = build(seed);
        let sorted = sort_by_center_x(&builder.rooms);
        let mut expected = builder.rooms.clone();
        expected.sort_by(|a, b| a.center().x.cmp(&b.center().x));
        assert_eq!(sorted, expected);
    }
}

#[test]
fn sorting_keeps_the_order_of_rooms_in_the_same_column() {
    let a = Rect::with_size(4, 0, 2, 2);
    let b = Rect::with_size(4, 10, 2, 2);
    let c = Rect::with_size(4, 20, 3, 2);
    let d = Rect::with_size(1, 30, 2, 2);
    assert_eq!(sort_by_center_x(&vec![a, b, c, d]), vec![d, a, b, c]);
    assert_eq!(sort_by_center_x(&vec![c, b, a, d]), vec![d, c, b, a]);
}
