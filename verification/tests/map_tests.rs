use dungeon_crawler::geometry::Point;
use dungeon_crawler::map::map_index;
use dungeon_crawler::map::MapError;
use dungeon_crawler::map::TileMap;
use dungeon_crawler::map::TileType;
use dungeon_crawler::map::SCREEN_HEIGHT;
use dungeon_crawler::map::SCREEN_WIDTH;

fn screen_map() -> TileMap {
    match TileMap::new(SCREEN_WIDTH, SCREEN_HEIGHT) {
        Ok(map) => map,
        Err(_) => panic!("the screen size is a valid map size"),
    }
}

#[test]
fn new_map_is_all_wall() {
    let map = screen_map();
    assert_eq!(map.width, 80);
    assert_eq!(map.height, 50);
    assert_eq!(map.tiles.len(), 4000);
    assert!(map.tiles.iter().all(|t| *t == TileType::Wall));
}

#[test]
fn new_map_rejects_zero_and_negative_sizes() {
    assert!(matches!(TileMap::new(0, 10), Err(MapError::InvalidDimensions)));
    assert!(matches!(TileMap::new(10, 0), Err(MapError::InvalidDimensions)));
    assert!(matches!(TileMap::new(-1, 10), Err(MapError::InvalidDimensions)));
    assert!(matches!(TileMap::new(10, -5), Err(MapError::InvalidDimensions)));
    assert!(matches!(TileMap::new(-3, -3), Err(MapError::InvalidDimensions)));
    assert!(matches!(TileMap::new(0, 0), Err(MapError::InvalidDimensions)));
    assert!(TileMap::new(1, 1).is_ok());
}

#[test]
fn map_index_is_row_major() {
    assert_eq!(map_index(5, 0, 0), 0);
    assert_eq!(map_index(5, 4, 0), 4);
    assert_eq!(map_index(5, 0, 1), 5);
    assert_eq!(map_index(5, 2, 1), 7);
    assert_eq!(map_index(5, 4, 2), 14);
    assert_eq!(map_index(80, 79, 49), 3999);
    assert_eq!(map_index(80, 3, 2), 163);
}

#[test]
fn index_round_trips_for_every_cell() {
    let map = screen_map();
    for y in 0..SCREEN_HEIGHT {
        for x in 0..SCREEN_WIDTH {
            let index = map.index_of(x, y);
            assert_eq!(index / (SCREEN_WIDTH as usize), y as usize);
            assert_eq!(index % (SCREEN_WIDTH as usize), x as usize);
            assert_eq!(index, map_index(SCREEN_WIDTH, x, y));
            assert_eq!(map.try_index(Point::new(x, y)), Some(index));
        }
    }
}

#[test]
fn in_bounds_holds_exactly_inside() {
    let map = screen_map();
    assert!(map.in_bounds(Point::new(0, 0)));
    assert!(map.in_bounds(Point::new(79, 49)));
    assert!(map.in_bounds(Point::new(79, 0)));
    assert!(map.in_bounds(Point::new(0, 49)));
    assert!(!map.in_bounds(Point::new(-1, 0)));
    assert!(!map.in_bounds(Point::new(0, -1)));
    assert!(!map.in_bounds(Point::new(80, 0)));
    assert!(!map.in_bounds(Point::new(0, 50)));
    assert!(!map.in_bounds(Point::new(i32::MAX, i32::MAX)));
    assert!(!map.in_bounds(Point::new(i32::MIN, i32::MIN)));
}

#[test]
fn try_index_is_none_outside() {
    let map = screen_map();
    assert_eq!(map.try_index(Point::new(-1, 5)), None);
    assert_eq!(map.try_index(Point::new(5, -1)), None);
    assert_eq!(map.try_index(Point::new(80, 5)), None);
    assert_eq!(map.try_index(Point::new(5, 50)), None);
    assert_eq!(map.try_index(Point::new(0, 0)), Some(0));
    assert_eq!(map.try_index(Point::new(79, 49)), Some(3999));
}

#[test]
fn can_enter_is_false_outside_the_map() {
    let mut map = screen_map();
    map.fill(TileType::Floor);
    for &(x, y) in [(-1, 0), (0, -1), (80, 0), (0, 50), (80, 50), (-1, -1), (1000, 3), (3, -1000)].iter() {
        assert!(!map.can_enter_tile(Point::new(x, y)));
    }
    assert!(map.can_enter_tile(Point::new(0, 0)));
    assert!(map.can_enter_tile(Point::new(79, 49)));
}

#[test]
fn can_enter_is_false_on_walls() {
    let mut map = screen_map();
    for y in 0..SCREEN_HEIGHT {
        for x in 0..SCREEN_WIDTH {
            assert!(!map.can_enter_tile(Point::new(x, y)));
        }
    }
    map.set_tile(Point::new(3, 4), TileType::Floor);
    assert!(map.can_enter_tile(Point::new(3, 4)));
    assert!(!map.can_enter_tile(Point::new(4, 3)));
    assert_eq!(map.tile_at(Point::new(3, 4)), Some(TileType::Floor));
    assert_eq!(map.tile_at(Point::new(4, 3)), Some(TileType::Wall));
    assert_eq!(map.tile_at(Point::new(80, 3)), None);
}

#[test]
fn set_tile_changes_one_cell_and_ignores_outside() {
    let mut map = screen_map();
    map.set_tile(Point::new(7, 2), TileType::Floor);
    let floors: Vec<usize> = (0..map.tiles.len()).filter(|i| map.tiles[*i] == TileType::Floor).collect();
    assert_eq!(floors, vec![2 * 80 + 7]);
    let before = map.tiles.clone();
    map.set_tile(Point::new(-1, 2), TileType::Floor);
    map.set_tile(Point::new(80, 2), TileType::Floor);
    map.set_tile(Point::new(2, 50), TileType::Floor);
    map.set_tile(Point::new(2, -1), TileType::Floor);
    assert!(map.tiles == before);
    map.set_tile(Point::new(7, 2), TileType::Wall);
    assert!(map.tiles.iter().all(|t| *t == TileType::Wall));
}

#[test]
fn fill_replaces_every_tile() {
    let mut map = match TileMap::new(7, 3) {
        Ok(map) => map,
        Err(_) => panic!("valid size"),
    };
    map.fill(TileType::Floor);
    assert_eq!(map.tiles.len(), 21);
    assert!(map.tiles.iter().all(|t| *t == TileType::Floor));
    map.fill(TileType::Wall);
    assert!(map.tiles.iter().all(|t| *t == TileType::Wall));
    assert_eq!(map.width, 7);
    assert_eq!(map.height, 3);
}
