use dungeon_crawler::camera::Camera;
use dungeon_crawler::components::ColorPair;
use dungeon_crawler::components::DrawCommand;
use dungeon_crawler::components::Render;
use dungeon_crawler::components::Rgb;
use dungeon_crawler::geometry::Point;
use dungeon_crawler::geometry::Rect;
use dungeon_crawler::map::TileMap;
use dungeon_crawler::map::TileType;
use dungeon_crawler::player::Player;
use dungeon_crawler::spawner::monster_positions;
use dungeon_crawler::spawner::spawn_player;
use dungeon_crawler::systems::build_schedule;
use dungeon_crawler::systems::collisions;
use dungeon_crawler::systems::entity_render;
use dungeon_crawler::systems::map_render;
use dungeon_crawler::systems::player_input;
use dungeon_crawler::systems::Direction;
use dungeon_crawler::systems::Phase;

fn small_map() -> TileMap {
    let mut map = match TileMap::new(30, 20) {
        Ok(map) => map,
        Err(_) => panic!("valid size"),
    };
    map.set_tile(Point::new(0, 0), TileType::Floor);
    map.set_tile(Point::new(5, 3), TileType::Floor);
    map.set_tile(Point::new(29, 19), TileType::Floor);
    map
}

#[test]
fn tile_glyphs_are_dot_and_hash() {
    assert_eq!(TileType::Floor.glyph(), 46);
    assert_eq!(TileType::Wall.glyph(), 35);
    assert_eq!(TileType::Floor.glyph(), bracket_lib::prelude::to_cp437('.'));
    assert_eq!(TileType::Wall.glyph(), bracket_lib::prelude::to_cp437('#'));
}

#[test]
fn colours_are_white_on_black() {
    let pair = ColorPair::white_on_black();
    assert_eq!(pair.fg, Rgb { r: 255, g: 255, b: 255 });
    assert_eq!(pair.bg, Rgb { r: 0, g: 0, b: 0 });
    assert_eq!(pair, ColorPair::new(Rgb::white(), Rgb::black()));
    assert_eq!((pair.fg.r, pair.fg.g, pair.fg.b), bracket_lib::prelude::WHITE);
    assert_eq!((pair.bg.r, pair.bg.g, pair.bg.b), bracket_lib::prelude::BLACK);
}

#[test]
fn render_draws_the_cells_of_the_map_inside_the_window() {
    let map = small_map();
    let camera = Camera::new(Point::new(5, 3));
    // The window covers columns -15..25 and rows -9..15.
    let commands = map.render(&camera);
    assert_eq!(commands.len(), 25 * 15);
    let mut expected: Vec<DrawCommand> = Vec::new();
    for y in 0..15 {
        for x in 0..25 {
            let floor = (x, y) == (0, 0) || (x, y) == (5, 3);
            expected.push(DrawCommand {
                pos: Point::new(x + 15, y + 9),
                color: ColorPair::white_on_black(),
                glyph: if floor { 46 } else { 35 },
            });
        }
    }
    assert_eq!(commands, expected);
}

#[test]
fn render_stays_within_the_display() {
    let map = small_map();
    for &(cx, cy) in [(0, 0), (29, 19), (15, 10), (5, 3)].iter() {
        let camera = Camera::new(Point::new(cx, cy));
        for command in map.render(&camera).iter() {
            assert!(0 <= command.pos.x && command.pos.x < 40);
            assert!(0 <= command.pos.y && command.pos.y < 24);
        }
    }
}

#[test]
fn render_of_a_window_off_the_map_is_empty() {
    let map = small_map();
    assert_eq!(map.render(&Camera::new(Point::new(200, 200))), vec![]);
    assert_eq!(map_render(&map, &Camera::new(Point::new(-100, 5))), vec![]);
}

#[test]
fn map_render_draws_one_row_more_than_render() {
    let map = small_map();
    let camera = Camera::new(Point::new(5, 3));
    let window = map.render(&camera);
    let system = map_render(&map, &camera);
    assert_eq!(system.len(), 25 * 16);
    assert_eq!(system[..window.len()].to_vec(), window);
    for (i, command) in system[window.len()..].iter().enumerate() {
        assert_eq!(command.pos, Point::new(i as i32 + 15, 24));
        assert_eq!(command.glyph, 35);
    }
    let low = Camera::new(Point::new(5, 7));
    assert_eq!(low.bottom_y, 19);
    assert_eq!(map_render(&map, &low).len(), map.render(&low).len() + 25);
    let lower = Camera::new(Point::new(5, 8));
    assert_eq!(map_render(&map, &lower), map.render(&lower));
}

#[test]
fn player_is_drawn_as_an_at_sign_relative_to_the_window() {
    let player = Player::new(Point::new(12, 9));
    let camera = Camera::new(Point::new(12, 9));
    let command = player.render(&camera);
    assert_eq!(command.pos, Point::new(20, 12));
    assert_eq!(command.glyph, 64);
    assert_eq!(command.glyph, bracket_lib::prelude::to_cp437('@'));
    assert_eq!(command.color, ColorPair::white_on_black());
    let moved = Camera::new(Point::new(14, 9));
    assert_eq!(player.render(&moved).pos, Point::new(18, 12));
}

#[test]
fn entities_are_drawn_in_order_relative_to_the_window() {
    let red = ColorPair::new(Rgb { r: 255, g: 0, b: 0 }, Rgb::black());
    let entities = vec![
        (Point::new(10, 10), Render { color: ColorPair::white_on_black(), glyph: 64 }),
        (Point::new(0, 0), Render { color: red, glyph: 69 }),
        (Point::new(70, 45), Render { color: red, glyph: 111 }),
    ];
    let camera = Camera::new(Point::new(10, 10));
    let commands = entity_render(&entities, &camera);
    assert_eq!(
        commands,
        vec![
            DrawCommand { pos: Point::new(20, 12), color: ColorPair::white_on_black(), glyph: 64 },
            DrawCommand { pos: Point::new(10, 2), color: red, glyph: 69 },
            DrawCommand { pos: Point::new(80, 47), color: red, glyph: 111 },
        ]
    );
    assert_eq!(entity_render(&Vec::new(), &camera), vec![]);
}

#[test]
fn spawned_player_stands_at_the_given_cell() {
    let (_, pos, render) = spawn_player(Point::new(7, 9));
    assert_eq!(pos, Point::new(7, 9));
    assert_eq!(render.glyph, 64);
    assert_eq!(render.color, ColorPair::white_on_black());
}

#[test]
fn monsters_start_in_every_room_but_the_first() {
    let rooms = vec![Rect::with_size(1, 1, 4, 4), Rect::with_size(10, 10, 2, 6), Rect::with_size(20, 5, 9, 3)];
    assert_eq!(monster_positions(&rooms), vec![Point::new(11, 13), Point::new(24, 6)]);
    assert_eq!(monster_positions(&rooms[..1].to_vec()), vec![]);
    assert_eq!(monster_positions(&Vec::new()), vec![]);
}

#[test]
fn collisions_pick_the_enemies_on_the_cell_of_the_player() {
    let players = vec![Point::new(4, 4)];
    let enemies = vec![Point::new(4, 4), Point::new(4, 5), Point::new(5, 4), Point::new(4, 4), Point::new(0, 0)];
    assert_eq!(collisions(&players, &enemies), vec![0, 3]);
    assert_eq!(collisions(&players, &Vec::new()), Vec::<usize>::new());
    assert_eq!(collisions(&vec![Point::new(9, 9)], &enemies), Vec::<usize>::new());
}

#[test]
fn collisions_go_by_the_last_player_or_the_origin() {
    let enemies = vec![Point::new(0, 0), Point::new(1, 1), Point::new(2, 2)];
    assert_eq!(collisions(&Vec::new(), &enemies), vec![0]);
    assert_eq!(collisions(&vec![Point::new(1, 1), Point::new(2, 2)], &enemies), vec![2]);
}

#[test]
fn enemy_on_the_cell_after_a_move_is_removed_before_drawing() {
    let mut map = small_map();
    map.fill(TileType::Floor);
    let mut camera = Camera::new(Point::new(5, 5));
    let enemies = vec![Point::new(6, 5), Point::new(8, 8)];
    let mut position = Point::new(5, 5);
    let mut alive = vec![true, true];
    let mut drawn: Vec<usize> = Vec::new();
    for phase in build_schedule() {
        match phase {
            Phase::PlayerInput => {
                position = player_input(position, Direction::Right, &map, &mut camera);
            },
            Phase::Collisions => {
                for index in collisions(&vec![position], &enemies) {
                    alive[index] = false;
                }
            },
            Phase::Flush => {},
            Phase::MapRender => {},
            Phase::EntityRender => {
                drawn = (0..enemies.len()).filter(|i| alive[*i]).collect();
            },
        }
    }
    assert_eq!(position, Point::new(6, 5));
    assert_eq!(alive, vec![false, true]);
    assert_eq!(drawn, vec![1]);
}

#[test]
fn schedule_runs_input_then_collisions_then_flush_then_drawing() {
    assert_eq!(
        build_schedule(),
        vec![Phase::PlayerInput, Phase::Collisions, Phase::Flush, Phase::MapRender, Phase::EntityRender]
    );
}
