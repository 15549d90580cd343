use crate::components::cp437;
use crate::components::glyph_code;
use crate::components::ColorPair;
use crate::components::Player;
use crate::components::Render;
use crate::geometry::Point;
use crate::geometry::Rect;
use vstd::prelude::*;

verus! {

/// The components of the player entity at `pos`: the mark of the player,
/// the position, and an at sign in white on black.
pub fn spawn_player(pos: Point) -> (components: (Player, Point, Render))
    ensures
        components.1 == pos,
        components.2.color == ColorPair::spec_white_on_black(),
        components.2.glyph == cp437('@'),
{
    (Player, pos, Render { color: ColorPair::white_on_black(), glyph: glyph_code('@') })
}

/// Where the enemies start: in the center of every room but the first, in
/// the order of the rooms.
pub fn monster_positions(rooms: &Vec<Rect>) -> (positions: Vec<Point>)
    ensures
        positions@.len() == if rooms@.len() == 0 {
            0
        } else {
            rooms@.len() - 1
        },
        forall|i: int|
            0 <= i < positions@.len() ==> #[trigger] positions@[i] == rooms@[i + 1].spec_center(),
{
    let mut positions: Vec<Point> = Vec::new();
    let mut i: usize = 1;
    while i < rooms.len()
        invariant
            1 <= i,
            i <= rooms.len() || i == 1,
            positions@.len() == i - 1,
            forall|k: int|
                0 <= k < positions@.len() ==> #[trigger] positions@[k] == rooms@[k + 1].spec_center(),
        decreases rooms.len() - i,
    {
        positions.push(rooms[i].center());
        i += 1;
    }
    positions
}

} // verus!
