//! Walls against an attempted move.
//!
//! A move is tried one axis at a time. The player's outline has four corners;
//! the caller works out, for each pass, which cells those corners would fall
//! into, and this module decides from the grid which axes of the move stand.
//! Because each axis is judged by itself, a player that runs into a wall at
//! an angle slides along it.

use crate::grid::{grid_of, in_grid, is_wall, Cell};
use vstd::prelude::*;

verus! {

/// Which parts of an attempted move stand.
#[derive(Clone, Copy, Debug, PartialEq, Eq, Structural)]
pub struct Slide {
    /// The move along x stands.
    pub x_moves: bool,
    /// The move along z stands.
    pub z_moves: bool,
}

/// The cells under the four corners of the outline, for each pass.
#[derive(Clone, Copy, Debug, PartialEq, Eq)]
pub struct MoveProbe {
    /// With the new x and the old z.
    pub x_pass: [Cell; 4],
    /// With the new x and the new z: the second pass if the move along x
    /// stands.
    pub z_pass_moved: [Cell; 4],
    /// With the old x and the new z: the second pass if the move along x was
    /// undone.
    pub z_pass_held: [Cell; 4],
}

/// One of the corners lies in a wall cell.
pub open spec fn touches_wall(g: Seq<Seq<bool>>, corners: Seq<Cell>) -> bool {
    exists|i: int| 0 <= i < corners.len() && is_wall(g, #[trigger] corners[i].x as int, corners[i].z as int)
}

/// Every corner that is looked at lies in the grid: the corners are looked at
/// in their order, up to the first that lies in a wall cell.
pub open spec fn probe_in_grid(g: Seq<Seq<bool>>, corners: Seq<Cell>) -> bool {
    forall|i: int|
        0 <= i < corners.len() && !touches_wall(g, corners.take(i)) ==> in_grid(
            g,
            #[trigger] corners[i].x as int,
            corners[i].z as int,
        )
}

/// The corners of the second pass: those that go with what the first pass
/// left of the move along x.
pub open spec fn second_pass(g: Seq<Seq<bool>>, probe: MoveProbe) -> Seq<Cell> {
    if touches_wall(g, probe.x_pass@) {
        probe.z_pass_held@
    } else {
        probe.z_pass_moved@
    }
}

/// Both passes look only at cells of the grid.
pub open spec fn probes_in_grid(g: Seq<Seq<bool>>, probe: MoveProbe) -> bool {
    probe_in_grid(g, probe.x_pass@) && probe_in_grid(g, second_pass(g, probe))
}

/// What is left of the move: each axis stands unless its pass touches a wall.
pub open spec fn slide_of(g: Seq<Seq<bool>>, probe: MoveProbe) -> Slide {
    Slide {
        x_moves: !touches_wall(g, probe.x_pass@),
        z_moves: !touches_wall(g, second_pass(g, probe)),
    }
}

/// A wall that stops the move along one axis leaves the other axis alone: if
/// only the first pass touches a wall, the move along z stands, and if only
/// the second does, the move along x stands.
pub proof fn lemma_wall_stops_one_axis(g: Seq<Seq<bool>>, probe: MoveProbe)
    ensures
        touches_wall(g, probe.x_pass@) && !touches_wall(g, probe.z_pass_held@) ==> slide_of(g, probe)
            == (Slide { x_moves: false, z_moves: true }),
        !touches_wall(g, probe.x_pass@) && touches_wall(g, probe.z_pass_moved@) ==> slide_of(
            g,
            probe,
        ) == (Slide { x_moves: true, z_moves: false }),
        !touches_wall(g, probe.x_pass@) && !touches_wall(g, probe.z_pass_moved@) ==> slide_of(
            g,
            probe,
        ) == (Slide { x_moves: true, z_moves: true }),
{
}

/// Tells whether the corners can be looked at without leaving the grid.
pub fn is_probe_in_grid(mini_map: &Vec<Vec<bool>>, corners: &[Cell; 4]) -> (ok: bool)
    ensures
        ok == probe_in_grid(grid_of(mini_map@), corners@),
{
    let ghost g = grid_of(mini_map@);
    let mut i: usize = 0;
    while i < 4
        invariant
            g == grid_of(mini_map@),
            0 <= i <= 4,
            corners@.len() == 4,
            !touches_wall(g, corners@.take(i as int)),
            forall|k: int| 0 <= k < i ==> in_grid(g, #[trigger] corners@[k].x as int, corners@[k].z as int),
        decreases 4 - i,
    {
        let c = corners[i];
        if c.z >= mini_map.len() {
            assert(!in_grid(g, corners@[i as int].x as int, corners@[i as int].z as int));
            return false;
        }
        assert(g[c.z as int] == mini_map@[c.z as int]@);
        if c.x >= mini_map[c.z].len() {
            assert(!in_grid(g, corners@[i as int].x as int, corners@[i as int].z as int));
            return false;
        }
        if mini_map[c.z][c.x] {
            assert(is_wall(g, corners@[i as int].x as int, corners@[i as int].z as int));
            assert forall|k: int|
                0 <= k < 4 && !touches_wall(g, corners@.take(k)) implies in_grid(
                g,
                #[trigger] corners@[k].x as int,
                corners@[k].z as int,
            ) by {
                if k > i {
                    assert(corners@.take(k)[i as int] == corners@[i as int]);
                }
            }
            return true;
        }
        proof {
            let now = corners@.take(i + 1);
            if touches_wall(g, now) {
                let k = choose|k: int| 0 <= k < now.len() && is_wall(g, #[trigger] now[k].x as int, now[k].z as int);
                if k < i {
                    assert(corners@.take(i as int)[k] == now[k]);
                }
            }
        }
        i = i + 1;
    }
    true
}

/// Tells whether one of the corners lies in a wall cell.
pub fn hits_wall(mini_map: &Vec<Vec<bool>>, corners: &[Cell; 4]) -> (hit: bool)
    requires
        probe_in_grid(grid_of(mini_map@), corners@),
    ensures
        hit == touches_wall(grid_of(mini_map@), corners@),
{
    let ghost g = grid_of(mini_map@);
    let mut i: usize = 0;
    while i < 4
        invariant
            g == grid_of(mini_map@),
            0 <= i <= 4,
            corners@.len() == 4,
            probe_in_grid(g, corners@),
            !touches_wall(g, corners@.take(i as int)),
        decreases 4 - i,
    {
        let c = corners[i];
        assert(in_grid(g, corners@[i as int].x as int, corners@[i as int].z as int));
        assert(g[c.z as int] == mini_map@[c.z as int]@);
        if mini_map[c.z][c.x] {
            assert(is_wall(g, corners@[i as int].x as int, corners@[i as int].z as int));
            return true;
        }
        proof {
            let now = corners@.take(i + 1);
            if touches_wall(g, now) {
                let k = choose|k: int| 0 <= k < now.len() && is_wall(g, #[trigger] now[k].x as int, now[k].z as int);
                if k < i {
                    assert(corners@.take(i as int)[k] == now[k]);
                }
            }
        }
        i = i + 1;
    }
    assert(corners@.take(4) =~= corners@);
    false
}

/// Tells whether both passes of a move can be judged without leaving the
/// grid.
pub fn are_probes_in_grid(mini_map: &Vec<Vec<bool>>, probe: &MoveProbe) -> (ok: bool)
    ensures
        ok == probes_in_grid(grid_of(mini_map@), *probe),
{
    if !is_probe_in_grid(mini_map, &probe.x_pass) {
        return false;
    }
    if hits_wall(mini_map, &probe.x_pass) {
        is_probe_in_grid(mini_map, &probe.z_pass_held)
    } else {
        is_probe_in_grid(mini_map, &probe.z_pass_moved)
    }
}

/// Judges an attempted move against the walls, one axis at a time. First the
/// move along x alone: if a corner of the outline would lie in a wall cell,
/// that part of the move is undone. Then the move along z, from wherever the
/// first pass left x: likewise.
pub fn handle_wall_collisions(mini_map: &Vec<Vec<bool>>, probe: &MoveProbe) -> (slide: Slide)
    requires
        probes_in_grid(grid_of(mini_map@), *probe),
    ensures
        slide == slide_of(grid_of(mini_map@), *probe),
{
    let x_blocked = hits_wall(mini_map, &probe.x_pass);
    let z_blocked = if x_blocked {
        hits_wall(mini_map, &probe.z_pass_held)
    } else {
        hits_wall(mini_map, &probe.z_pass_moved)
    };
    Slide { x_moves: !x_blocked, z_moves: !z_blocked }
}

} // verus!
