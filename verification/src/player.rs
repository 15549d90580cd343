use crate::camera::Camera;
use crate::components::cp437;
use crate::components::glyph_code;
use crate::components::ColorPair;
use crate::components::DrawCommand;
use crate::geometry::Point;
use crate::map::TileMap;
use crate::systems::player_input;
use crate::systems::spec_destination;
use crate::systems::Direction;
use vstd::prelude::*;

verus! {

/// The actor that the camera tracks.
#[derive(Clone, Copy, Debug, PartialEq, Eq, Structural)]
pub struct Player {
    pub position: Point,
}

impl Player {
    /// A player standing at `position`.
    pub fn new(position: Point) -> (player: Player)
        ensures
            player.position == position,
    {
        Player { position }
    }

    /// Moves the player one cell in `direction` if the map allows it, and
    /// recenters the camera on the new position. A move that the map does
    /// not allow changes neither the player nor the camera.
    pub fn update(&mut self, direction: Direction, map: &TileMap, camera: &mut Camera)
        requires
            map.wf(),
            map.fits_camera(),
        ensures
            spec_destination(old(self).position, direction, map@) is Some ==> {
                &&& Some(final(self).position) == spec_destination(
                    old(self).position,
                    direction,
                    map@,
                )
                &&& *final(camera) == Camera::centered_at(final(self).position)
            },
            spec_destination(old(self).position, direction, map@) is None ==> {
                &&& *final(self) == *old(self)
                &&& *final(camera) == *old(camera)
            },
    {
        self.position = player_input(self.position, direction, map, camera);
    }

    /// The command that draws the player in the window of `camera`: an at
    /// sign, white on black, at the position of the player relative to the
    /// top-left corner of the window.
    pub fn render(&self, camera: &Camera) -> (command: DrawCommand)
        requires
            self.position.can_subtract(camera.origin()),
        ensures
            command.pos.x == self.position.x - camera.left_x,
            command.pos.y == self.position.y - camera.top_y,
            command.color == ColorPair::spec_white_on_black(),
            command.glyph == cp437('@'),
    {
        DrawCommand {
            pos: camera.to_local(self.position),
            color: ColorPair::white_on_black(),
            glyph: glyph_code('@'),
        }
    }
}

} // verus!
