use crate::camera::Camera;
use crate::components::cp437;
use crate::components::glyph_code;
use crate::components::ColorPair;
use crate::components::DrawCommand;
use crate::components::FontCharType;
use crate::geometry::Point;
use crate::grid::Grid;
use crate::grid::TileType;
use crate::map::TileMap;
use vstd::prelude::*;

verus! {

/// The glyph of a tile: a dot for floor, a hash for wall.
pub open spec fn tile_glyph(tile: TileType) -> FontCharType {
    match tile {
        TileType::Floor => cp437('.'),
        TileType::Wall => cp437('#'),
    }
}

/// The command that draws cell `(x, y)` of `grid` in the window of
/// `camera`: the glyph of its tile, white on black, at the position of the
/// cell relative to the top-left corner of the window.
pub open spec fn tile_command(grid: Grid, camera: Camera, x: int, y: int) -> DrawCommand {
    DrawCommand {
        pos: Point { x: (x - camera.left_x) as i32, y: (y - camera.top_y) as i32 },
        color: ColorPair::spec_white_on_black(),
        glyph: tile_glyph(grid.tile_at(x, y)),
    }
}

/// The commands for row `y` of the window from its left edge up to, but not
/// including, column `x_end`, from left to right. Columns outside the grid
/// are left out.
pub open spec fn render_row(grid: Grid, camera: Camera, y: int, x_end: int) -> Seq<DrawCommand>
    decreases x_end - camera.left_x,
{
    if x_end <= camera.left_x {
        Seq::empty()
    } else {
        let before = render_row(grid, camera, y, x_end - 1);
        if grid.contains(x_end - 1, y) {
            before.push(tile_command(grid, camera, x_end - 1, y))
        } else {
            before
        }
    }
}

/// The commands for the rows of the window from its top edge up to, but
/// not including, row `y_end`, row after row from the top.
pub open spec fn render_rows(grid: Grid, camera: Camera, y_end: int) -> Seq<DrawCommand>
    decreases y_end - camera.top_y,
{
    if y_end <= camera.top_y {
        Seq::empty()
    } else {
        render_rows(grid, camera, y_end - 1) + render_row(grid, camera, y_end - 1, camera.right_x as int)
    }
}

/// Whether `command` draws a cell of row `y` that lies in the grid and in
/// the columns of the window in front of `x_end`.
pub open spec fn draws_cell_of_row(
    grid: Grid,
    camera: Camera,
    y: int,
    x_end: int,
    command: DrawCommand,
) -> bool {
    exists|x: int|
        camera.left_x <= x < x_end && grid.contains(x, y) && command == #[trigger] tile_command(
            grid,
            camera,
            x,
            y,
        )
}

/// A row of commands holds the command of a cell exactly if the cell lies
/// in the row, in the grid, and in the columns that were drawn.
pub proof fn lemma_render_row_commands(grid: Grid, camera: Camera, y: int, x_end: int)
    ensures
        forall|x: int|
            camera.left_x <= x < x_end && grid.contains(x, y) ==> render_row(
                grid,
                camera,
                y,
                x_end,
            ).contains(#[trigger] tile_command(grid, camera, x, y)),
        forall|i: int|
            0 <= i < render_row(grid, camera, y, x_end).len() ==> draws_cell_of_row(
                grid,
                camera,
                y,
                x_end,
                #[trigger] render_row(grid, camera, y, x_end)[i],
            ),
    decreases x_end - camera.left_x,
{
    let row = render_row(grid, camera, y, x_end);
    if x_end > camera.left_x {
        let before = render_row(grid, camera, y, x_end - 1);
        lemma_render_row_commands(grid, camera, y, x_end - 1);
        assert forall|x: int| camera.left_x <= x < x_end && grid.contains(x, y) implies row.contains(
            #[trigger] tile_command(grid, camera, x, y),
        ) by {
            if x < x_end - 1 {
                assert(before.contains(tile_command(grid, camera, x, y)));
                let k = choose|k: int|
                    0 <= k < before.len() && before[k] == tile_command(grid, camera, x, y);
                assert(row[k] == tile_command(grid, camera, x, y));
            } else {
                assert(row[row.len() - 1] == tile_command(grid, camera, x, y));
            }
        }
        assert forall|i: int| 0 <= i < row.len() implies draws_cell_of_row(
            grid,
            camera,
            y,
            x_end,
            #[trigger] row[i],
        ) by {
            if i < before.len() {
                assert(draws_cell_of_row(grid, camera, y, x_end - 1, before[i]));
                let x = choose|x: int|
                    camera.left_x <= x < x_end - 1 && grid.contains(x, y) && before[i]
                        == #[trigger] tile_command(grid, camera, x, y);
                assert(row[i] == tile_command(grid, camera, x, y));
            } else {
                assert(row[i] == tile_command(grid, camera, x_end - 1, y));
            }
        }
    }
}

impl TileType {
    /// The glyph of the tile: a dot for floor, a hash for wall.
    pub fn glyph(self) -> (code: FontCharType)
        ensures
            code == tile_glyph(self),
    {
        match self {
            TileType::Floor => glyph_code('.'),
            TileType::Wall => glyph_code('#'),
        }
    }
}

impl TileMap {
    /// The commands that draw the rows of the window of `camera` from its
    /// top edge up to, but not including, row `y_end`.
    pub(crate) fn render_until(&self, camera: &Camera, y_end: i64) -> (commands: Vec<DrawCommand>)
        requires
            self.wf(),
            camera.wf(),
            y_end <= camera.bottom_y + 1,
        ensures
            commands@ == render_rows(self@, *camera, y_end as int),
    {
        let mut commands: Vec<DrawCommand> = Vec::new();
        let mut y: i64 = camera.top_y as i64;
        while y < y_end
            invariant
                camera.top_y <= y,
                y <= y_end || y == camera.top_y,
                y_end <= camera.bottom_y + 1,
                self.wf(),
                camera.wf(),
                commands@ == render_rows(self@, *camera, y as int),
            decreases y_end - y,
        {
            let ghost above = commands@;
            let mut x: i32 = camera.left_x;
            while x < camera.right_x
                invariant
                    camera.left_x <= x <= camera.right_x,
                    camera.top_y <= y < y_end,
                    y_end <= camera.bottom_y + 1,
                    self.wf(),
                    camera.wf(),
                    commands@ == above + render_row(self@, *camera, y as int, x as int),
                decreases camera.right_x - x,
            {
                let cell = Point { x, y: y as i32 };
                if let Some(tile) = self.tile_at(cell) {
                    commands.push(
                        DrawCommand {
                            pos: camera.to_local(cell),
                            color: ColorPair::white_on_black(),
                            glyph: tile.glyph(),
                        },
                    );
                }
                proof {
                    let next = render_row(self@, *camera, y as int, x as int + 1);
                    assert(commands@ =~= above + next);
                }
                x += 1;
            }
            y += 1;
        }
        commands
    }

    /// The commands that draw the part of the map that lies in the window
    /// of `camera`, row after row from the top and from left to right in
    /// each row. Cells of the window outside the map are left out.
    pub fn render(&self, camera: &Camera) -> (commands: Vec<DrawCommand>)
        requires
            self.wf(),
            camera.wf(),
        ensures
            commands@ == render_rows(self@, *camera, camera.bottom_y as int),
    {
        self.render_until(camera, camera.bottom_y as i64)
    }
}

} // verus!
