//! Where a marker may be drawn on the small map.
//!
//! A marker is drawn where its player stands, but kept off the walls beside
//! the player's cell, so that it never covers them. Along each axis the walls
//! on the two sides of the cell decide: a wall on the low side keeps the
//! marker from falling below the cell's own place, a wall on the high side
//! from rising above it, and walls on both sides hold it there.

use crate::grid::{grid_of, in_grid, is_wall, Cell};
use vstd::prelude::*;

verus! {

/// What the walls beside a cell allow a marker along one axis, measured
/// against the cell's own place.
#[derive(Clone, Copy, Debug, PartialEq, Eq, Structural)]
pub enum Limit {
    /// The marker is drawn where the player stands.
    Free,
    /// The marker is not drawn below the cell's place.
    AtLeast,
    /// The marker is not drawn above the cell's place.
    AtMost,
    /// The marker is drawn at the cell's place.
    Exact,
}

/// The limits of a marker along both axes.
#[derive(Clone, Copy, Debug, PartialEq, Eq, Structural)]
pub struct MarkerLimits {
    pub x: Limit,
    pub z: Limit,
}

/// The walls around a cell: above and below it in its column, left and right
/// of it in its row.
#[derive(Clone, Copy, Debug, PartialEq, Eq, Structural)]
pub struct Surroundings {
    pub up: bool,
    pub down: bool,
    pub left: bool,
    pub right: bool,
}

/// The limit that walls on the low and on the high side of a cell set.
pub open spec fn limit_between(low_wall: bool, high_wall: bool) -> Limit {
    if low_wall && high_wall {
        Limit::Exact
    } else if low_wall {
        Limit::AtLeast
    } else if high_wall {
        Limit::AtMost
    } else {
        Limit::Free
    }
}

/// The limits that the walls around a cell set.
pub open spec fn limits_of(walls: Surroundings) -> MarkerLimits {
    MarkerLimits {
        x: limit_between(walls.left, walls.right),
        z: limit_between(walls.up, walls.down),
    }
}

/// The walls around the cell `(x, z)` of `g`.
pub open spec fn surroundings(g: Seq<Seq<bool>>, x: int, z: int) -> Surroundings {
    Surroundings {
        up: is_wall(g, x, z - 1),
        down: is_wall(g, x, z + 1),
        left: is_wall(g, x - 1, z),
        right: is_wall(g, x + 1, z),
    }
}

/// The four neighbours of `(x, z)` are cells of `g`.
pub open spec fn has_neighbours(g: Seq<Seq<bool>>, x: int, z: int) -> bool {
    in_grid(g, x, z - 1) && in_grid(g, x, z + 1) && in_grid(g, x - 1, z) && in_grid(g, x + 1, z)
}

/// Where a coordinate `at` ends up under a limit around `place`.
pub open spec fn limited(limit: Limit, at: int, place: int) -> int {
    match limit {
        Limit::Free => at,
        Limit::AtLeast => if at < place {
            place
        } else {
            at
        },
        Limit::AtMost => if at > place {
            place
        } else {
            at
        },
        Limit::Exact => place,
    }
}

/// `at`, but not below `place`.
pub open spec fn raised(at: int, place: int) -> int {
    if at < place {
        place
    } else {
        at
    }
}

/// `at`, but not above `place`.
pub open spec fn lowered(at: int, place: int) -> int {
    if at > place {
        place
    } else {
        at
    }
}

/// Where a marker at `(x, z)` ends up when it is placed shape by shape, for
/// a cell at `(px, pz)`: first the tunnels, which hold the marker across and
/// stop it at their dead ends, then the four corners, then the four sides of
/// a junction or a room.
pub open spec fn placed_by_shape(walls: Surroundings, x: int, z: int, px: int, pz: int) -> (int, int) {
    let Surroundings { up, down, left, right } = walls;
    let (x1, z1) = if down && up {
        (
            if left {
                raised(
                    if right {
                        lowered(x, px)
                    } else {
                        x
                    },
                    px,
                )
            } else if right {
                lowered(x, px)
            } else {
                x
            },
            pz,
        )
    } else {
        (x, z)
    };
    let (x2, z2) = if right && left {
        (
            px,
            if down {
                lowered(
                    if up {
                        raised(z1, pz)
                    } else {
                        z1
                    },
                    pz,
                )
            } else if up {
                raised(z1, pz)
            } else {
                z1
            },
        )
    } else {
        (x1, z1)
    };
    let (x3, z3) = if left && up && !right && !down {
        (raised(x2, px), raised(z2, pz))
    } else if up && right && !left && !down {
        (lowered(x2, px), raised(z2, pz))
    } else if right && down && !up && !left {
        (lowered(x2, px), lowered(z2, pz))
    } else if left && down && !up && !right {
        (raised(x2, px), lowered(z2, pz))
    } else {
        (x2, z2)
    };
    if up && !left && !right && !down {
        (x3, raised(z3, pz))
    } else if left && !down && !up && !right {
        (raised(x3, px), z3)
    } else if right && !up && !down && !left {
        (lowered(x3, px), z3)
    } else if down && !left && !right && !up {
        (x3, lowered(z3, pz))
    } else {
        (x3, z3)
    }
}

/// Placing a marker shape by shape comes to the same as limiting it along
/// each axis by the walls on the two sides of the cell.
pub proof fn lemma_every_shape_is_two_limits(walls: Surroundings, x: int, z: int, px: int, pz: int)
    ensures
        placed_by_shape(walls, x, z, px, pz) == (
            limited(limits_of(walls).x, x, px),
            limited(limits_of(walls).z, z, pz),
        ),
{
}

/// Looks up the walls around a cell whose four neighbours are in the grid.
pub fn walls_around(mini_map: &Vec<Vec<bool>>, cell: Cell) -> (walls: Surroundings)
    requires
        has_neighbours(grid_of(mini_map@), cell.x as int, cell.z as int),
    ensures
        walls == surroundings(grid_of(mini_map@), cell.x as int, cell.z as int),
{
    let ghost g = grid_of(mini_map@);
    assert(g[cell.z - 1] == mini_map@[cell.z - 1]@);
    assert(g[cell.z as int] == mini_map@[cell.z as int]@);
    assert(g[cell.z + 1] == mini_map@[cell.z + 1]@);
    assert(cell.z + 1 < mini_map.len());
    assert(cell.x + 1 < mini_map[cell.z as int].len());
    Surroundings {
        up: mini_map[cell.z - 1][cell.x],
        down: mini_map[cell.z + 1][cell.x],
        left: mini_map[cell.z][cell.x - 1],
        right: mini_map[cell.z][cell.x + 1],
    }
}

/// Tells whether the four neighbours of a cell are in the grid.
pub fn is_surrounded(mini_map: &Vec<Vec<bool>>, cell: Cell) -> (ok: bool)
    ensures
        ok == has_neighbours(grid_of(mini_map@), cell.x as int, cell.z as int),
{
    let ghost g = grid_of(mini_map@);
    if cell.z == 0 || cell.x == 0 {
        return false;
    }
    if cell.z >= mini_map.len() || cell.z + 1 >= mini_map.len() {
        return false;
    }
    assert(g[cell.z - 1] == mini_map@[cell.z - 1]@);
    assert(g[cell.z as int] == mini_map@[cell.z as int]@);
    assert(g[cell.z + 1] == mini_map@[cell.z + 1]@);
    let row = &mini_map[cell.z];
    if cell.x >= row.len() || cell.x + 1 >= row.len() {
        return false;
    }
    cell.x < mini_map[cell.z - 1].len() && cell.x < mini_map[cell.z + 1].len()
}

/// Gives the limits of a marker whose player stands in `cell`.
pub fn marker_limits(mini_map: &Vec<Vec<bool>>, cell: Cell) -> (limits: MarkerLimits)
    requires
        has_neighbours(grid_of(mini_map@), cell.x as int, cell.z as int),
    ensures
        limits == limits_of(surroundings(grid_of(mini_map@), cell.x as int, cell.z as int)),
{
    let walls = walls_around(mini_map, cell);
    MarkerLimits { x: limit(walls.left, walls.right), z: limit(walls.up, walls.down) }
}

/// Gives the limit that walls on the low and on the high side of a cell set.
pub fn limit(low_wall: bool, high_wall: bool) -> (limit: Limit)
    ensures
        limit == limit_between(low_wall, high_wall),
{
    if low_wall && high_wall {
        Limit::Exact
    } else if low_wall {
        Limit::AtLeast
    } else if high_wall {
        Limit::AtMost
    } else {
        Limit::Free
    }
}

} // verus!
