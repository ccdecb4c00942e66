//! Positions in the game world, in the packed form the game uses: from the high
//! byte down, the room's x coordinate plus 128, its y coordinate plus 128, and the
//! x and the y within the room.
use vstd::prelude::*;

verus! {

/// The in-room coordinates of a packed position are within the room.
pub open spec fn packed_valid(p: u32) -> bool {
    (p / 256) % 256 < 50 && p % 256 < 50
}

/// The horizontal world coordinate: fifty per room, plus the x within the room.
pub open spec fn world_x(p: u32) -> int {
    ((p / 16777216) % 256 - 128) * 50 + (p / 256) % 256
}

/// The vertical world coordinate: fifty per room, plus the y within the room.
pub open spec fn world_y(p: u32) -> int {
    ((p / 65536) % 256 - 128) * 50 + p % 256
}

/// The absolute value.
pub open spec fn abs(x: int) -> int {
    if x < 0 { -x } else { x }
}

/// The linear (Chebyshev) range between two positions, over world coordinates:
/// the larger of the distances along x and along y.
pub open spec fn spec_range(a: u32, b: u32) -> int {
    let dx = abs(world_x(a) - world_x(b));
    let dy = abs(world_y(a) - world_y(b));
    if dx >= dy { dx } else { dy }
}

/// The range between two packed positions, by `screeps::Position::get_range_to`
/// on the positions that `screeps::Position::from_packed` makes of them. The crate
/// documents the range as the Chebyshev distance over world coordinates, and
/// `from_packed` panics where an in-room coordinate is 50 or more.
#[verifier::external_body]
pub(crate) fn range_between(a: u32, b: u32) -> (r: u32)
    requires
        packed_valid(a),
        packed_valid(b),
    ensures
        r == spec_range(a, b),
{
    screeps::Position::from_packed(a).get_range_to(screeps::Position::from_packed(b))
}

/// Two positions are in the same room and at most one step apart along each axis.
pub open spec fn spec_near(a: u32, b: u32) -> bool {
    &&& a / 65536 == b / 65536
    &&& abs((a / 256) % 256 - (b / 256) % 256) <= 1
    &&& abs(a % 256 - b % 256) <= 1
}

/// Whether two packed positions are near each other, by
/// `screeps::Position::is_near_to`: same room, and at most one apart in x and in y.
#[verifier::external_body]
pub(crate) fn positions_near(a: u32, b: u32) -> (r: bool)
    requires
        packed_valid(a),
        packed_valid(b),
    ensures
        r == spec_near(a, b),
{
    screeps::Position::from_packed(a).is_near_to(screeps::Position::from_packed(b))
}

} // verus!
