//! Where a player may be put: the open cells of a grid, and the choice of one
//! of them by chance.

use crate::grid::{grid_of, has_open_cell, is_open, Cell};
use crate::scalar::{single_of, Position, Scalar};
use vstd::prelude::*;

verus! {

/// The open cells among the first `upto` cells of row `z`, from left to right.
pub open spec fn row_open_cells(row: Seq<bool>, z: int, upto: int) -> Seq<Cell>
    decreases upto,
{
    if upto <= 0 {
        Seq::empty()
    } else if row[upto - 1] {
        row_open_cells(row, z, upto - 1)
    } else {
        row_open_cells(row, z, upto - 1).push(Cell { x: (upto - 1) as usize, z: z as usize })
    }
}

/// The open cells of the first `upto` rows of `g`, row by row.
pub open spec fn open_cells_upto(g: Seq<Seq<bool>>, upto: int) -> Seq<Cell>
    decreases upto,
{
    if upto <= 0 {
        Seq::empty()
    } else {
        open_cells_upto(g, upto - 1) + row_open_cells(g[upto - 1], upto - 1, g[upto - 1].len() as int)
    }
}

/// The open cells of `g`, row by row and from left to right in each row.
pub open spec fn open_cells(g: Seq<Seq<bool>>) -> Seq<Cell> {
    open_cells_upto(g, g.len() as int)
}

/// The cells listed for a row are open cells of that row, and each open cell
/// of the row, up to the bound, is listed.
pub proof fn lemma_row_open_cells(g: Seq<Seq<bool>>, z: int, upto: int)
    requires
        0 <= z < g.len(),
        0 <= upto <= g[z].len() <= usize::MAX,
        z <= usize::MAX,
    ensures
        forall|i: int|
            0 <= i < row_open_cells(g[z], z, upto).len() ==> {
                let c = #[trigger] row_open_cells(g[z], z, upto)[i];
                c.z == z && c.x < upto && is_open(g, c.x as int, z)
            },
        forall|x: int|
            0 <= x < upto && !g[z][x] ==> row_open_cells(g[z], z, upto).contains(
                Cell { x: x as usize, z: z as usize },
            ),
    decreases upto,
{
    if upto > 0 {
        lemma_row_open_cells(g, z, upto - 1);
        let before = row_open_cells(g[z], z, upto - 1);
        let now = row_open_cells(g[z], z, upto);
        assert forall|x: int| 0 <= x < upto && !g[z][x] implies now.contains(
            Cell { x: x as usize, z: z as usize },
        ) by {
            let c = Cell { x: x as usize, z: z as usize };
            if x < upto - 1 {
                let i = choose|i: int| 0 <= i < before.len() && before[i] == c;
                assert(now[i] == c);
            } else {
                assert(now[now.len() - 1] == c);
            }
        }
    }
}

/// Every listed cell is an open cell of the grid, and every open cell of the
/// first `upto` rows is listed.
pub proof fn lemma_open_cells_upto(g: Seq<Seq<bool>>, upto: int)
    requires
        0 <= upto <= g.len() <= usize::MAX,
        forall|z: int| 0 <= z < g.len() ==> (#[trigger] g[z]).len() <= usize::MAX,
    ensures
        forall|i: int|
            0 <= i < open_cells_upto(g, upto).len() ==> {
                let c = #[trigger] open_cells_upto(g, upto)[i];
                c.z < upto && is_open(g, c.x as int, c.z as int)
            },
        forall|x: int, z: int|
            0 <= z < upto && #[trigger] is_open(g, x, z) ==> open_cells_upto(g, upto).contains(
                Cell { x: x as usize, z: z as usize },
            ),
    decreases upto,
{
    if upto > 0 {
        lemma_open_cells_upto(g, upto - 1);
        lemma_row_open_cells(g, upto - 1, g[upto - 1].len() as int);
        let before = open_cells_upto(g, upto - 1);
        let row = row_open_cells(g[upto - 1], upto - 1, g[upto - 1].len() as int);
        let now = open_cells_upto(g, upto);
        assert(now == before + row);
        assert forall|i: int| 0 <= i < now.len() implies ({
            let c = #[trigger] now[i];
            c.z < upto && is_open(g, c.x as int, c.z as int)
        }) by {
            if i < before.len() {
                assert(now[i] == before[i]);
            } else {
                assert(now[i] == row[i - before.len()]);
            }
        }
        assert forall|x: int, z: int| 0 <= z < upto && #[trigger] is_open(g, x, z) implies now.contains(
            Cell { x: x as usize, z: z as usize },
        ) by {
            let c = Cell { x: x as usize, z: z as usize };
            if z < upto - 1 {
                let i = choose|i: int| 0 <= i < before.len() && before[i] == c;
                assert(now[i] == c);
            } else {
                let i = choose|i: int| 0 <= i < row.len() && row[i] == c;
                assert(now[before.len() + i] == c);
            }
        }
    }
}

/// The listed cells are exactly the open cells of the grid.
pub proof fn lemma_open_cells(map: Seq<Vec<bool>>)
    requires
        map.len() <= usize::MAX,
    ensures
        forall|i: int|
            0 <= i < open_cells(grid_of(map)).len() ==> {
                let c = #[trigger] open_cells(grid_of(map))[i];
                is_open(grid_of(map), c.x as int, c.z as int)
            },
        forall|x: int, z: int| #[trigger]
            is_open(grid_of(map), x, z) ==> open_cells(grid_of(map)).contains(
                Cell { x: x as usize, z: z as usize },
            ),
        has_open_cell(grid_of(map)) == (open_cells(grid_of(map)).len() > 0),
{
    let g = grid_of(map);
    assert forall|z: int| 0 <= z < g.len() implies (#[trigger] g[z]).len() <= usize::MAX by {
        assert(g[z].len() == map[z].len());
    }
    lemma_open_cells_upto(g, g.len() as int);
    if has_open_cell(g) {
        let (x, z) = choose|x: int, z: int| is_open(g, x, z);
        assert(is_open(g, x, z));
        assert(open_cells(g).contains(Cell { x: x as usize, z: z as usize }));
    }
    if open_cells(g).len() > 0 {
        let c = open_cells(g)[0];
        assert(is_open(g, c.x as int, c.z as int));
    }
}

/// The middle of a cell, as a point of the floor plane: cells are unit
/// squares centred on whole coordinates.
pub open spec fn cell_position(cell: Cell) -> Position {
    Position { x: single_of(cell.x as nat), z: single_of(cell.z as nat) }
}

/// Gives the middle of a cell as a point of the floor plane.
pub fn position_of(cell: Cell) -> (position: Position)
    ensures
        position == cell_position(cell),
{
    Position::build(Scalar::from_whole(cell.x), Scalar::from_whole(cell.z))
}

/// Lists the open cells of the grid, row by row and from left to right.
pub fn open_cells_of(map: &Vec<Vec<bool>>) -> (spaces: Vec<Cell>)
    ensures
        spaces@ == open_cells(grid_of(map@)),
{
    let ghost g = grid_of(map@);
    let mut spaces: Vec<Cell> = Vec::new();
    let mut z: usize = 0;
    while z < map.len()
        invariant
            g == grid_of(map@),
            0 <= z <= map.len(),
            spaces@ == open_cells_upto(g, z as int),
        decreases map.len() - z,
    {
        let row = &map[z];
        assert(row@ == g[z as int]);
        let ghost before = spaces@;
        let mut x: usize = 0;
        while x < row.len()
            invariant
                0 <= x <= row.len(),
                spaces@ == before + row_open_cells(row@, z as int, x as int),
            decreases row.len() - x,
        {
            if !row[x] {
                spaces.push(Cell { x, z });
            }
            assert(spaces@ =~= before + row_open_cells(row@, z as int, x + 1));
            x = x + 1;
        }
        z = z + 1;
    }
    spaces
}

/// Draws a number below `num` by chance.
///
/// Calls `rand::random_range` on the range from zero up to, and without,
/// `num`. The contract claims what the function documents: the number drawn
/// lies in that range. An empty range makes the function panic, so `num` must
/// not be zero.
#[verifier::external_body]
pub fn generate_up_to(num: usize) -> (drawn: usize)
    requires
        num > 0,
    ensures
        drawn < num,
{
    rand::random_range(0..num)
}

/// Picks the cell at place `index` of the list of open cells.
pub fn nth_open_cell(spaces: &Vec<Cell>, index: usize) -> (cell: Cell)
    requires
        index < spaces.len(),
    ensures
        cell == spaces[index as int],
{
    spaces[index]
}

/// Chooses an open cell of the grid by chance, each with the same weight.
pub fn generate_position(map: &Vec<Vec<bool>>) -> (cell: Cell)
    requires
        has_open_cell(grid_of(map@)),
    ensures
        is_open(grid_of(map@), cell.x as int, cell.z as int),
{
    let spaces = open_cells_of(map);
    proof {
        assert(map@.len() == map.len());
        lemma_open_cells(map@);
    }
    let index = generate_up_to(spaces.len());
    nth_open_cell(&spaces, index)
}

} // verus!
