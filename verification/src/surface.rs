//! The wall faces of a grid: the upright unit quads between an open cell and
//! a wall cell beside it.

use crate::grid::{bordered, grid_of, is_open, is_wall, rectangular};
use crate::hit::Hittable;
use vstd::prelude::*;

verus! {

/// The direction of a face's first edge.
#[derive(Clone, Copy, Debug, PartialEq, Eq, Structural)]
pub enum Axis {
    /// The face runs along the x axis, between two rows.
    X,
    /// The face runs along the z axis, between two columns.
    Z,
}

/// A wall face. Cells are unit squares centred on whole coordinates, and the
/// face starts at the low corner of cell `(x, z)`: its origin is the point
/// `(x - 1/2, 1/2, z - 1/2)`, its first edge runs one unit along `axis`, its
/// second edge one unit up.
#[derive(Clone, Copy, Debug, PartialEq, Eq, Structural)]
pub struct Shield {
    pub x: usize,
    pub z: usize,
    pub axis: Axis,
}

impl Shield {
    /// The face at the low corner of cell `(x, z)` that runs along `axis`.
    pub fn new(x: usize, z: usize, axis: Axis) -> (s: Shield)
        ensures
            s == (Shield { x, z, axis }),
    {
        Self { x, z, axis }
    }

    /// The two cells that the face lies between, as `(x, z)` pairs: the one
    /// on its low side first.
    pub open spec fn sides(self) -> ((int, int), (int, int)) {
        match self.axis {
            Axis::X => ((self.x as int, self.z - 1), (self.x as int, self.z as int)),
            Axis::Z => ((self.x - 1, self.z as int), (self.x as int, self.z as int)),
        }
    }

    /// The face lies between an open cell and a wall cell of `g`.
    pub open spec fn separates(self, g: Seq<Seq<bool>>) -> bool {
        let (low, high) = self.sides();
        (is_open(g, low.0, low.1) && is_wall(g, high.0, high.1)) || (is_wall(g, low.0, low.1)
            && is_open(g, high.0, high.1))
    }
}

/// The face `s` if `present`, else nothing.
pub open spec fn face_if(present: bool, s: Shield) -> Seq<Shield> {
    if present {
        seq![s]
    } else {
        Seq::empty()
    }
}

/// The face between the cell `(x, z)` and its neighbour above.
pub open spec fn face_above(x: int, z: int) -> Shield {
    Shield { x: x as usize, z: z as usize, axis: Axis::X }
}

/// The face between the cell `(x, z)` and its neighbour to the right.
pub open spec fn face_right(x: int, z: int) -> Shield {
    Shield { x: (x + 1) as usize, z: z as usize, axis: Axis::Z }
}

/// The face between the cell `(x, z)` and its neighbour below.
pub open spec fn face_below(x: int, z: int) -> Shield {
    Shield { x: x as usize, z: (z + 1) as usize, axis: Axis::X }
}

/// The face between the cell `(x, z)` and its neighbour to the left.
pub open spec fn face_left(x: int, z: int) -> Shield {
    Shield { x: x as usize, z: z as usize, axis: Axis::Z }
}

/// The faces of the open cell `(x, z)`: one for each wall among its four
/// neighbours, the neighbour above first, then right, below and left. A wall
/// cell has none.
pub open spec fn cell_faces(g: Seq<Seq<bool>>, x: int, z: int) -> Seq<Shield> {
    if !is_open(g, x, z) {
        Seq::empty()
    } else {
        face_if(is_wall(g, x, z - 1), face_above(x, z)) + face_if(
            is_wall(g, x + 1, z),
            face_right(x, z),
        ) + face_if(is_wall(g, x, z + 1), face_below(x, z)) + face_if(
            is_wall(g, x - 1, z),
            face_left(x, z),
        )
    }
}

/// The faces of the first `upto` cells of row `z`, cell by cell.
pub open spec fn row_faces(g: Seq<Seq<bool>>, z: int, upto: int) -> Seq<Shield>
    decreases upto,
{
    if upto <= 0 {
        Seq::empty()
    } else {
        row_faces(g, z, upto - 1) + cell_faces(g, upto - 1, z)
    }
}

/// The faces of the first `upto` rows of `g`, row by row.
pub open spec fn faces_upto(g: Seq<Seq<bool>>, upto: int) -> Seq<Shield>
    decreases upto,
{
    if upto <= 0 {
        Seq::empty()
    } else {
        faces_upto(g, upto - 1) + row_faces(g, upto - 1, g[upto - 1].len() as int)
    }
}

/// All wall faces of `g`: row by row, cell by cell, and for each open cell
/// above, right, below, left.
pub open spec fn wall_faces(g: Seq<Seq<bool>>) -> Seq<Shield> {
    faces_upto(g, g.len() as int)
}

/// The faces as shot targets.
pub open spec fn as_walls(faces: Seq<Shield>) -> Seq<Hittable> {
    faces.map_values(|s: Shield| Hittable::Wall(s))
}

/// An element of a concatenation is an element of one of its parts.
proof fn lemma_contains_add(a: Seq<Shield>, b: Seq<Shield>, s: Shield)
    ensures
        (a + b).contains(s) <==> a.contains(s) || b.contains(s),
{
    if (a + b).contains(s) {
        let i = choose|i: int| 0 <= i < (a + b).len() && (a + b)[i] == s;
        if i < a.len() {
            assert(a[i] == s);
        } else {
            assert(b[i - a.len()] == s);
        }
    }
    if a.contains(s) {
        let i = choose|i: int| 0 <= i < a.len() && a[i] == s;
        assert((a + b)[i] == s);
    }
    if b.contains(s) {
        let i = choose|i: int| 0 <= i < b.len() && b[i] == s;
        assert((a + b)[a.len() + i] == s);
    }
}

/// `s` is a face of the open cell `(x, z)`: the face towards one of its four
/// neighbours, and that neighbour is a wall.
pub open spec fn is_face_of(g: Seq<Seq<bool>>, s: Shield, x: int, z: int) -> bool {
    is_open(g, x, z) && ((is_wall(g, x, z - 1) && s == face_above(x, z)) || (is_wall(g, x + 1, z)
        && s == face_right(x, z)) || (is_wall(g, x, z + 1) && s == face_below(x, z)) || (is_wall(
        g,
        x - 1,
        z,
    ) && s == face_left(x, z)))
}

/// The faces listed for a cell are exactly the faces of that cell.
pub proof fn lemma_cell_faces(g: Seq<Seq<bool>>, x: int, z: int, s: Shield)
    ensures
        cell_faces(g, x, z).contains(s) <==> is_face_of(g, s, x, z),
{
    if is_open(g, x, z) {
        let a = face_if(is_wall(g, x, z - 1), face_above(x, z));
        let b = face_if(is_wall(g, x + 1, z), face_right(x, z));
        let c = face_if(is_wall(g, x, z + 1), face_below(x, z));
        let d = face_if(is_wall(g, x - 1, z), face_left(x, z));
        assert(cell_faces(g, x, z) == a + b + c + d);
        lemma_contains_add(a + b + c, d, s);
        lemma_contains_add(a + b, c, s);
        lemma_contains_add(a, b, s);
        assert(a.contains(s) <==> is_wall(g, x, z - 1) && s == face_above(x, z)) by {
            if is_wall(g, x, z - 1) {
                assert(a[0] == face_above(x, z));
            }
        }
        assert(b.contains(s) <==> is_wall(g, x + 1, z) && s == face_right(x, z)) by {
            if is_wall(g, x + 1, z) {
                assert(b[0] == face_right(x, z));
            }
        }
        assert(c.contains(s) <==> is_wall(g, x, z + 1) && s == face_below(x, z)) by {
            if is_wall(g, x, z + 1) {
                assert(c[0] == face_below(x, z));
            }
        }
        assert(d.contains(s) <==> is_wall(g, x - 1, z) && s == face_left(x, z)) by {
            if is_wall(g, x - 1, z) {
                assert(d[0] == face_left(x, z));
            }
        }
    }
}

/// The faces listed for the start of a row are exactly the faces of its
/// cells.
pub proof fn lemma_row_faces(g: Seq<Seq<bool>>, z: int, upto: int, s: Shield)
    requires
        0 <= upto,
    ensures
        row_faces(g, z, upto).contains(s) <==> exists|x: int|
            0 <= x < upto && #[trigger] is_face_of(g, s, x, z),
    decreases upto,
{
    if upto > 0 {
        lemma_row_faces(g, z, upto - 1, s);
        lemma_cell_faces(g, upto - 1, z, s);
        lemma_contains_add(row_faces(g, z, upto - 1), cell_faces(g, upto - 1, z), s);
        if row_faces(g, z, upto).contains(s) {
            if row_faces(g, z, upto - 1).contains(s) {
                let x = choose|x: int| 0 <= x < upto - 1 && #[trigger] is_face_of(g, s, x, z);
                assert(is_face_of(g, s, x, z));
            } else {
                assert(is_face_of(g, s, upto - 1, z));
            }
        }
    }
}

/// The faces listed for the first rows are exactly the faces of their cells.
pub proof fn lemma_faces_upto(g: Seq<Seq<bool>>, upto: int, s: Shield)
    requires
        0 <= upto <= g.len(),
    ensures
        faces_upto(g, upto).contains(s) <==> exists|x: int, z: int|
            0 <= z < upto && #[trigger] is_face_of(g, s, x, z),
    decreases upto,
{
    if upto > 0 {
        let width = g[upto - 1].len() as int;
        lemma_faces_upto(g, upto - 1, s);
        lemma_row_faces(g, upto - 1, width, s);
        lemma_contains_add(faces_upto(g, upto - 1), row_faces(g, upto - 1, width), s);
        if faces_upto(g, upto).contains(s) {
            if faces_upto(g, upto - 1).contains(s) {
                let (x, z) = choose|x: int, z: int|
                    0 <= z < upto - 1 && #[trigger] is_face_of(g, s, x, z);
                assert(is_face_of(g, s, x, z));
            } else {
                let x = choose|x: int| 0 <= x < width && #[trigger] is_face_of(g, s, x, upto - 1);
                assert(is_face_of(g, s, x, upto - 1));
            }
        }
        if exists|x: int, z: int| 0 <= z < upto && #[trigger] is_face_of(g, s, x, z) {
            let (x, z) = choose|x: int, z: int| 0 <= z < upto && #[trigger] is_face_of(g, s, x, z);
            if z < upto - 1 {
                assert(is_face_of(g, s, x, z));
            } else {
                assert(is_face_of(g, s, x, upto - 1));
                assert(0 <= x < width);
            }
        }
    }
}

/// The wall faces of a grid are exactly the boundaries between an open cell
/// and a wall cell beside it: a face is listed if and only if it is the face
/// of some open cell towards a neighbouring wall, and every listed face lies
/// between an open cell and a wall cell.
pub proof fn lemma_wall_faces(map: &Vec<Vec<bool>>, s: Shield)
    ensures
        wall_faces(grid_of(map@)).contains(s) <==> exists|x: int, z: int| #[trigger]
            is_face_of(grid_of(map@), s, x, z),
        wall_faces(grid_of(map@)).contains(s) ==> s.separates(grid_of(map@)),
{
    let g = grid_of(map@);
    lemma_faces_upto(g, g.len() as int, s);
    if exists|x: int, z: int| #[trigger] is_face_of(g, s, x, z) {
        let (x, z) = choose|x: int, z: int| #[trigger] is_face_of(g, s, x, z);
        assert(0 <= z < g.len() && is_face_of(g, s, x, z));
    }
    if wall_faces(g).contains(s) {
        let (x, z) = choose|x: int, z: int| 0 <= z < g.len() && #[trigger] is_face_of(g, s, x, z);
        assert(g.len() == map.len());
        assert(g[z].len() == map[z].len());
        if is_wall(g, x, z + 1) {
            assert(g[z + 1].len() == map[z + 1].len());
        }
        if is_wall(g, x + 1, z) {
            assert(x + 1 < map[z].len());
        }
    }
}

/// Turning faces into shot targets goes through concatenation.
proof fn lemma_as_walls_add(a: Seq<Shield>, b: Seq<Shield>)
    ensures
        as_walls(a + b) == as_walls(a) + as_walls(b),
{
    assert(as_walls(a + b) =~= as_walls(a) + as_walls(b));
}

/// Adds the face `s` to the shot targets if `present`.
fn push_face_if(hittables: &mut Vec<Hittable>, present: bool, s: Shield)
    ensures
        final(hittables)@ == old(hittables)@ + as_walls(face_if(present, s)),
{
    if present {
        hittables.push(Hittable::Wall(s));
    }
    assert(hittables@ =~= old(hittables)@ + as_walls(face_if(present, s)));
}

/// Adds the faces of the open cell `(x, z)` to the shot targets.
fn push_cell_faces(hittables: &mut Vec<Hittable>, mini_map: &Vec<Vec<bool>>, x: usize, z: usize)
    requires
        rectangular(grid_of(mini_map@)),
        bordered(grid_of(mini_map@)),
        is_open(grid_of(mini_map@), x as int, z as int),
    ensures
        final(hittables)@ == old(hittables)@ + as_walls(cell_faces(grid_of(mini_map@), x as int, z as int)),
{
    let ghost g = grid_of(mini_map@);
    assert(!crate::grid::on_edge(g, x as int, z as int));
    assert(g[z - 1] == mini_map@[z - 1]@);
    assert(g[z as int] == mini_map@[z as int]@);
    assert(g[z + 1] == mini_map@[z + 1]@);
    assert(g[z - 1].len() == g[0].len() && g[z + 1].len() == g[0].len() && g[z as int].len()
        == g[0].len());
    assert(z + 1 < mini_map.len());
    assert(x + 1 < mini_map[z as int].len());
    let up = Shield::new(x, z, Axis::X);
    let right = Shield::new(x + 1, z, Axis::Z);
    let below = Shield::new(x, z + 1, Axis::X);
    let left = Shield::new(x, z, Axis::Z);
    let has_up = mini_map[z - 1][x];
    let has_right = mini_map[z][x + 1];
    let has_below = mini_map[z + 1][x];
    let has_left = mini_map[z][x - 1];
    assert(has_up == is_wall(g, x as int, z - 1));
    assert(has_right == is_wall(g, x + 1, z as int));
    assert(has_below == is_wall(g, x as int, z + 1));
    assert(has_left == is_wall(g, x - 1, z as int));
    push_face_if(hittables, has_up, up);
    push_face_if(hittables, has_right, right);
    push_face_if(hittables, has_below, below);
    push_face_if(hittables, has_left, left);
    proof {
        let a = face_if(has_up, up);
        let b = face_if(has_right, right);
        let c = face_if(has_below, below);
        let d = face_if(has_left, left);
        assert(cell_faces(g, x as int, z as int) == a + b + c + d);
        lemma_as_walls_add(a + b + c, d);
        lemma_as_walls_add(a + b, c);
        lemma_as_walls_add(a, b);
        assert(hittables@ =~= old(hittables)@ + as_walls(a + b + c + d));
    }
}

/// Adds the wall faces of the grid to the shot targets: for every open cell
/// and every wall cell beside it, the unit face on the boundary they share.
/// The grid must be rectangular and closed, so that every open cell has its
/// four neighbours.
pub fn add_shields(hittables: &mut Vec<Hittable>, mini_map: &Vec<Vec<bool>>)
    requires
        rectangular(grid_of(mini_map@)),
        bordered(grid_of(mini_map@)),
    ensures
        final(hittables)@ == old(hittables)@ + as_walls(wall_faces(grid_of(mini_map@))),
{
    let ghost g = grid_of(mini_map@);
    let ghost first = hittables@;
    let mut z: usize = 0;
    assert(hittables@ =~= first + as_walls(faces_upto(g, 0)));
    while z < mini_map.len()
        invariant
            g == grid_of(mini_map@),
            rectangular(g),
            bordered(g),
            0 <= z <= mini_map.len(),
            hittables@ == first + as_walls(faces_upto(g, z as int)),
        decreases mini_map.len() - z,
    {
        let row = &mini_map[z];
        assert(row@ == g[z as int]);
        let ghost before = hittables@;
        let mut x: usize = 0;
        assert(hittables@ =~= before + as_walls(row_faces(g, z as int, 0)));
        while x < row.len()
            invariant
                g == grid_of(mini_map@),
                rectangular(g),
                bordered(g),
                0 <= z < mini_map.len(),
                row@ == g[z as int],
                0 <= x <= row.len(),
                hittables@ == before + as_walls(row_faces(g, z as int, x as int)),
            decreases row.len() - x,
        {
            if !row[x] {
                push_cell_faces(hittables, mini_map, x, z);
            } else {
                assert(cell_faces(g, x as int, z as int) =~= Seq::<Shield>::empty());
                assert(hittables@ =~= hittables@ + as_walls(cell_faces(g, x as int, z as int)));
            }
            proof {
                lemma_as_walls_add(row_faces(g, z as int, x as int), cell_faces(g, x as int, z as int));
                assert(hittables@ =~= before + as_walls(row_faces(g, z as int, x + 1)));
            }
            x = x + 1;
        }
        proof {
            lemma_as_walls_add(faces_upto(g, z as int), row_faces(g, z as int, g[z as int].len() as int));
            assert(hittables@ =~= first + as_walls(faces_upto(g, z + 1)));
        }
        z = z + 1;
    }
}

} // verus!
