use crate::geometry::Point;
use vstd::prelude::*;

verus! {

/// Width of the visible window, in cells: half the width of the dungeon.
pub const DISPLAY_WIDTH: i32 = 40;

/// Height of the visible window, in cells: half the height of the dungeon.
pub const DISPLAY_HEIGHT: i32 = 25;

/// The window of world coordinates that is visible around a tracked
/// position: the cells `(x, y)` with `left_x <= x < right_x` and
/// `top_y <= y < bottom_y`.
#[derive(Clone, Copy, Debug, PartialEq, Eq, Structural)]
pub struct Camera {
    pub center: Point,
    pub left_x: i32,
    pub right_x: i32,
    pub top_y: i32,
    pub bottom_y: i32,
}

impl Camera {
    /// Whether a window around `center` has representable bounds.
    pub open spec fn can_center(center: Point) -> bool {
        &&& i32::MIN <= center.x - DISPLAY_WIDTH / 2
        &&& center.x + DISPLAY_WIDTH / 2 <= i32::MAX
        &&& i32::MIN <= center.y - DISPLAY_HEIGHT / 2
        &&& center.y + DISPLAY_HEIGHT / 2 <= i32::MAX
    }

    /// The window that extends half the display size from `center` in each
    /// direction.
    pub open spec fn centered_at(center: Point) -> Camera {
        Camera {
            center,
            left_x: (center.x - DISPLAY_WIDTH / 2) as i32,
            right_x: (center.x + DISPLAY_WIDTH / 2) as i32,
            top_y: (center.y - DISPLAY_HEIGHT / 2) as i32,
            bottom_y: (center.y + DISPLAY_HEIGHT / 2) as i32,
        }
    }

    /// The bounds are those of the window around `center`.
    pub open spec fn wf(self) -> bool {
        Self::can_center(self.center) && self == Self::centered_at(self.center)
    }

    /// Whether `point` lies in the window.
    pub open spec fn contains(self, point: Point) -> bool {
        &&& self.left_x <= point.x < self.right_x
        &&& self.top_y <= point.y < self.bottom_y
    }

    /// The top-left corner of the window.
    pub open spec fn origin(self) -> Point {
        Point { x: self.left_x, y: self.top_y }
    }

    /// A window centered on `player_position`.
    pub fn new(player_position: Point) -> (camera: Camera)
        requires
            Self::can_center(player_position),
        ensures
            camera == Self::centered_at(player_position),
            camera.wf(),
            camera.contains(player_position),
    {
        Camera {
            center: player_position,
            left_x: player_position.x - DISPLAY_WIDTH / 2,
            right_x: player_position.x + DISPLAY_WIDTH / 2,
            top_y: player_position.y - DISPLAY_HEIGHT / 2,
            bottom_y: player_position.y + DISPLAY_HEIGHT / 2,
        }
    }

    /// Moves the window so that it is centered on `player_position`. The
    /// window is not clamped to any map.
    pub fn on_player_move(&mut self, player_position: Point)
        requires
            Self::can_center(player_position),
        ensures
            *final(self) == Self::centered_at(player_position),
            final(self).wf(),
            final(self).contains(player_position),
    {
        self.center = player_position;
        self.left_x = player_position.x - DISPLAY_WIDTH / 2;
        self.right_x = player_position.x + DISPLAY_WIDTH / 2;
        self.top_y = player_position.y - DISPLAY_HEIGHT / 2;
        self.bottom_y = player_position.y + DISPLAY_HEIGHT / 2;
    }

    /// Whether `point` lies in the window.
    pub fn is_visible(&self, point: Point) -> (visible: bool)
        ensures
            visible == self.contains(point),
    {
        self.left_x <= point.x && point.x < self.right_x && self.top_y <= point.y && point.y
            < self.bottom_y
    }

    /// The position of `world_point` relative to the top-left corner of the
    /// window.
    pub fn to_local(&self, world_point: Point) -> (local: Point)
        requires
            world_point.can_subtract(self.origin()),
        ensures
            local.x == world_point.x - self.left_x,
            local.y == world_point.y - self.top_y,
    {
        world_point.relative_to(Point { x: self.left_x, y: self.top_y })
    }
}

/// A window always holds the point it is centered on.
pub proof fn lemma_center_is_visible(center: Point)
    requires
        Camera::can_center(center),
    ensures
        Camera::centered_at(center).contains(center),
        Camera::centered_at(center).wf(),
{
}

} // verus!
