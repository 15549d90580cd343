use crate::camera::Camera;
use crate::camera::DISPLAY_HEIGHT;
use crate::camera::DISPLAY_WIDTH;
use crate::components::DrawCommand;
use crate::components::Render;
use crate::geometry::Point;
use crate::grid::Grid;
use crate::map::TileMap;
use crate::rendering::render_rows;
use vstd::prelude::*;

verus! {

/// A requested move of one cell.
#[derive(Clone, Copy, Debug, PartialEq, Eq, Structural)]
pub enum Direction {
    Stay,
    Up,
    Down,
    Left,
    Right,
}

impl Direction {
    /// The unit step that the direction stands for.
    pub open spec fn spec_delta(self) -> Point {
        match self {
            Direction::Left => Point { x: -1i32, y: 0 },
            Direction::Right => Point { x: 1, y: 0 },
            Direction::Up => Point { x: 0, y: -1i32 },
            Direction::Down => Point { x: 0, y: 1 },
            Direction::Stay => Point { x: 0, y: 0 },
        }
    }

    /// The unit step that the direction stands for.
    pub fn delta(self) -> (step: Point)
        ensures
            step == self.spec_delta(),
    {
        match self {
            Direction::Left => Point { x: -1, y: 0 },
            Direction::Right => Point { x: 1, y: 0 },
            Direction::Up => Point { x: 0, y: -1 },
            Direction::Down => Point { x: 0, y: 1 },
            Direction::Stay => Point { x: 0, y: 0 },
        }
    }
}

/// Where a move from `position` in `direction` ends on `grid`: the
/// neighbouring cell if the direction is an actual step and that cell is
/// floor, and nowhere otherwise.
pub open spec fn spec_destination(position: Point, direction: Direction, grid: Grid) -> Option<
    Point,
> {
    let step = direction.spec_delta();
    if direction != Direction::Stay && grid.is_floor(position.x + step.x, position.y + step.y) {
        Some(Point { x: (position.x + step.x) as i32, y: (position.y + step.y) as i32 })
    } else {
        None
    }
}

impl TileMap {
    /// A camera can be centered on every cell of the map.
    pub open spec fn fits_camera(&self) -> bool {
        &&& self.width + DISPLAY_WIDTH / 2 <= i32::MAX
        &&& self.height + DISPLAY_HEIGHT / 2 <= i32::MAX
    }
}

/// Resolves a requested move: returns the position after the move and, if
/// the position changed, recenters the camera on it. A request without a
/// step, or one that leads off the map or into a wall, changes nothing.
pub fn player_input(position: Point, direction: Direction, map: &TileMap, camera: &mut Camera) -> (next: Point)
    requires
        map.wf(),
        map.fits_camera(),
    ensures
        spec_destination(position, direction, map@) is Some ==> {
            &&& Some(next) == spec_destination(position, direction, map@)
            &&& *final(camera) == Camera::centered_at(next)
            &&& final(camera).contains(next)
        },
        spec_destination(position, direction, map@) is None ==> {
            &&& next == position
            &&& *final(camera) == *old(camera)
        },
{
    let step = direction.delta();
    if step.x == 0 && step.y == 0 {
        return position;
    }
    if (step.x > 0 && position.x == i32::MAX) || (step.x < 0 && position.x == i32::MIN) || (step.y
        > 0 && position.y == i32::MAX) || (step.y < 0 && position.y == i32::MIN) {
        return position;
    }
    let destination = position.moved_by(step);
    if map.can_enter_tile(destination) {
        camera.on_player_move(destination);
        destination
    } else {
        position
    }
}

/// A move into a wall, or off the map, leaves the position and the camera
/// as they were.
pub proof fn lemma_blocked_move_changes_nothing(position: Point, direction: Direction, grid: Grid)
    requires
        grid.wf(),
        !grid.is_floor(
            position.x + direction.spec_delta().x,
            position.y + direction.spec_delta().y,
        ),
    ensures
        spec_destination(position, direction, grid) is None,
{
}

/// One step of a frame.
#[derive(Clone, Copy, Debug, PartialEq, Eq, Structural)]
pub enum Phase {
    /// The requested move of the player is resolved.
    PlayerInput,
    /// Enemies that share a cell with the player are marked for removal.
    Collisions,
    /// Everything marked for removal is removed.
    Flush,
    /// The map is drawn.
    MapRender,
    /// The entities are drawn.
    EntityRender,
}

/// The phases of a frame in the order in which they run.
pub open spec fn spec_schedule() -> Seq<Phase> {
    seq![
        Phase::PlayerInput,
        Phase::Collisions,
        Phase::Flush,
        Phase::MapRender,
        Phase::EntityRender,
    ]
}

/// The phases of a frame in the order in which they run: the move, then
/// the collisions and the removal they ask for, then the drawing.
pub fn build_schedule() -> (phases: Vec<Phase>)
    ensures
        phases@ == spec_schedule(),
{
    let mut phases: Vec<Phase> = Vec::new();
    phases.push(Phase::PlayerInput);
    phases.push(Phase::Collisions);
    phases.push(Phase::Flush);
    phases.push(Phase::MapRender);
    phases.push(Phase::EntityRender);
    proof {
        assert(phases@ =~= spec_schedule());
    }
    phases
}

/// Whether `first` runs before `then` in `phases`.
pub open spec fn runs_before(phases: Seq<Phase>, first: Phase, then: Phase) -> bool {
    exists|i: int, j: int|
        0 <= i < j < phases.len() && #[trigger] phases[i] == first && #[trigger] phases[j] == then
}

/// Collisions are looked for after the move, and nothing is drawn before
/// the removals asked for by the collisions are done.
pub proof fn lemma_removals_precede_drawing()
    ensures
        runs_before(spec_schedule(), Phase::PlayerInput, Phase::Collisions),
        runs_before(spec_schedule(), Phase::Collisions, Phase::Flush),
        runs_before(spec_schedule(), Phase::Flush, Phase::MapRender),
        runs_before(spec_schedule(), Phase::Flush, Phase::EntityRender),
        spec_schedule().no_duplicates(),
{
    let phases = spec_schedule();
    assert(phases[0] == Phase::PlayerInput);
    assert(phases[1] == Phase::Collisions);
    assert(phases[2] == Phase::Flush);
    assert(phases[3] == Phase::MapRender);
    assert(phases[4] == Phase::EntityRender);
}

/// The position that collisions are measured against: that of the last
/// player, or the origin where there is no player.
pub open spec fn tracked_position(players: Seq<Point>) -> Point {
    if players.len() == 0 {
        Point { x: 0, y: 0 }
    } else {
        players[players.len() - 1]
    }
}

/// The enemies to remove: the positions in `enemies`, in ascending order,
/// of those enemies that stand on the cell of the player.
pub fn collisions(players: &Vec<Point>, enemies: &Vec<Point>) -> (removed: Vec<usize>)
    ensures
        forall|k: int|
            0 <= k < removed@.len() ==> (#[trigger] removed@[k]) < enemies@.len()
                && enemies@[removed@[k] as int] == tracked_position(players@),
        forall|j: int, k: int| 0 <= j < k < removed@.len() ==> removed@[j] < removed@[k],
        forall|i: int|
            0 <= i < enemies@.len() && #[trigger] enemies@[i] == tracked_position(players@)
                ==> removed@.contains(i as usize),
{
    let player_pos = if players.len() == 0 {
        Point::zero()
    } else {
        players[players.len() - 1]
    };
    let mut removed: Vec<usize> = Vec::new();
    let mut i: usize = 0;
    while i < enemies.len()
        invariant
            i <= enemies.len(),
            player_pos == tracked_position(players@),
            forall|k: int|
                0 <= k < removed@.len() ==> (#[trigger] removed@[k]) < i && enemies@[removed@[k] as int]
                    == player_pos,
            forall|j: int, k: int| 0 <= j < k < removed@.len() ==> removed@[j] < removed@[k],
            forall|e: int|
                0 <= e < i && #[trigger] enemies@[e] == player_pos ==> removed@.contains(e as usize),
        decreases enemies.len() - i,
    {
        let ghost before = removed@;
        if enemies[i].x == player_pos.x && enemies[i].y == player_pos.y {
            removed.push(i);
            proof {
                assert(removed@[removed@.len() - 1] == i);
            }
        }
        proof {
            assert forall|e: int| 0 <= e < i + 1 && #[trigger] enemies@[e] == player_pos implies removed@.contains(
                e as usize,
            ) by {
                if e < i {
                    assert(before.contains(e as usize));
                    let k = choose|k: int| 0 <= k < before.len() && before[k] == e as usize;
                    assert(removed@[k] == e as usize);
                }
            }
        }
        i += 1;
    }
    removed
}

/// The commands that draw the map in the window of `camera`: the rows of
/// the window and the row below it, row after row from the top and from
/// left to right in each row. Cells outside the map are left out.
pub fn map_render(map: &TileMap, camera: &Camera) -> (commands: Vec<DrawCommand>)
    requires
        map.wf(),
        camera.wf(),
    ensures
        commands@ == render_rows(map@, *camera, camera.bottom_y + 1),
{
    map.render_until(camera, camera.bottom_y as i64 + 1)
}

/// The command that draws an entity at `position` in the window of
/// `camera`: its glyph in its colours, at the position relative to the
/// top-left corner of the window.
pub open spec fn entity_command(position: Point, render: Render, camera: Camera) -> DrawCommand {
    DrawCommand {
        pos: Point {
            x: (position.x - camera.left_x) as i32,
            y: (position.y - camera.top_y) as i32,
        },
        color: render.color,
        glyph: render.glyph,
    }
}

/// The commands that draw the entities, one per entity and in their order.
/// Nothing is clipped: an entity outside the window gets a position
/// outside the display.
pub fn entity_render(entities: &Vec<(Point, Render)>, camera: &Camera) -> (commands: Vec<
    DrawCommand,
>)
    requires
        forall|i: int|
            0 <= i < entities@.len() ==> (#[trigger] entities@[i]).0.can_subtract(camera.origin()),
    ensures
        commands@.len() == entities@.len(),
        forall|i: int|
            0 <= i < entities@.len() ==> #[trigger] commands@[i] == entity_command(
                entities@[i].0,
                entities@[i].1,
                *camera,
            ),
{
    let mut commands: Vec<DrawCommand> = Vec::new();
    let mut i: usize = 0;
    while i < entities.len()
        invariant
            i <= entities.len(),
            commands@.len() == i,
            forall|k: int|
                0 <= k < entities@.len() ==> (#[trigger] entities@[k]).0.can_subtract(
                    camera.origin(),
                ),
            forall|k: int|
                0 <= k < i ==> #[trigger] commands@[k] == entity_command(
                    entities@[k].0,
                    entities@[k].1,
                    *camera,
                ),
        decreases entities.len() - i,
    {
        let position = entities[i].0;
        let render = entities[i].1;
        assert(entities@[i as int].0.can_subtract(camera.origin()));
        commands.push(
            DrawCommand {
                pos: camera.to_local(position),
                color: render.color,
                glyph: render.glyph,
            },
        );
        i += 1;
    }
    commands
}

} // verus!
