//! Map texts and the wall grids they describe.
//!
//! A map is a plain text: one row of the grid per line, one cell per
//! character, a space for an open cell, any other character for a wall. The
//! grid is indexed `[z][x]`, row first.

use vstd::prelude::*;
use vstd::std_specs::iter::IteratorSpec;

verus! {

/// A cell of the grid: column `x` of row `z`.
#[derive(Clone, Copy, Debug, PartialEq, Eq, Structural)]
pub struct Cell {
    pub x: usize,
    pub z: usize,
}

/// Why a map text was refused.
#[derive(Clone, Copy, Debug, PartialEq, Eq, Structural)]
pub enum MapError {
    /// Fewer than three rows, rows of different lengths, or no open cell.
    InvalidFormat,
    /// An open cell lies on the outer edge of the grid.
    OpenBorder,
}

/// The index of the first line feed of `s` at or after `from`; the length of
/// `s` where there is none.
pub open spec fn line_end(s: Seq<char>, from: int) -> int
    decreases s.len() - from,
{
    if from < 0 || from >= s.len() {
        s.len() as int
    } else if s[from] == '\n' {
        from
    } else {
        line_end(s, from + 1)
    }
}

/// `line` without the carriage return at its end, if it has one.
pub open spec fn strip_cr(line: Seq<char>) -> Seq<char> {
    if line.len() > 0 && line.last() == '\r' {
        line.drop_last()
    } else {
        line
    }
}

/// The lines of `s` from index `from` on. A line ends at a line feed, or at a
/// carriage return directly before one; neither belongs to the line. What
/// follows the last line feed is a line of its own unless it is empty.
pub open spec fn lines_from(s: Seq<char>, from: int) -> Seq<Seq<char>>
    decreases s.len() - from,
{
    if from < 0 || from >= s.len() {
        Seq::empty()
    } else {
        let end = line_end(s, from);
        if end >= s.len() {
            seq![s.subrange(from, s.len() as int)]
        } else {
            proof {
                lemma_line_end_bounds(s, from);
            }
            seq![strip_cr(s.subrange(from, end))] + lines_from(s, end + 1)
        }
    }
}

/// The lines of the text `s`.
pub open spec fn lines(s: Seq<char>) -> Seq<Seq<char>> {
    lines_from(s, 0)
}

/// The cells that a line of the text stands for: a wall wherever the
/// character is not a space.
pub open spec fn row_cells(line: Seq<char>) -> Seq<bool> {
    line.map_values(|c: char| c != ' ')
}

/// The grid that the text `s` stands for, row by row.
pub open spec fn text_grid(s: Seq<char>) -> Seq<Seq<bool>> {
    lines(s).map_values(|line: Seq<char>| row_cells(line))
}

/// The grid held by a vector of rows.
pub open spec fn grid_of(map: Seq<Vec<bool>>) -> Seq<Seq<bool>> {
    map.map_values(|row: Vec<bool>| row@)
}

/// `(x, z)` names a cell of `g`.
pub open spec fn in_grid(g: Seq<Seq<bool>>, x: int, z: int) -> bool {
    0 <= z < g.len() && 0 <= x < g[z].len()
}

/// `(x, z)` names an open cell of `g`.
pub open spec fn is_open(g: Seq<Seq<bool>>, x: int, z: int) -> bool {
    in_grid(g, x, z) && !g[z][x]
}

/// `(x, z)` names a wall cell of `g`.
pub open spec fn is_wall(g: Seq<Seq<bool>>, x: int, z: int) -> bool {
    in_grid(g, x, z) && g[z][x]
}

/// Every row of `g` is as long as the first.
pub open spec fn rectangular(g: Seq<Seq<bool>>) -> bool {
    forall|z: int| 0 <= z < g.len() ==> (#[trigger] g[z]).len() == g[0].len()
}

/// `g` has an open cell.
pub open spec fn has_open_cell(g: Seq<Seq<bool>>) -> bool {
    exists|x: int, z: int| is_open(g, x, z)
}

/// `g` can be played on as far as its shape goes: at least three rows, all of
/// one length, and somewhere to stand.
pub open spec fn valid_grid(g: Seq<Seq<bool>>) -> bool {
    g.len() >= 3 && rectangular(g) && has_open_cell(g)
}

/// `(x, z)` lies on the outer edge of `g`.
pub open spec fn on_edge(g: Seq<Seq<bool>>, x: int, z: int) -> bool {
    z == 0 || z == g.len() - 1 || x == 0 || x == g[z].len() - 1
}

/// No open cell of `g` lies on its outer edge.
pub open spec fn bordered(g: Seq<Seq<bool>>) -> bool {
    forall|x: int, z: int| #[trigger] is_open(g, x, z) ==> !on_edge(g, x, z)
}

/// In a rectangular, closed grid the four neighbours of an open cell are
/// cells of the grid.
pub proof fn lemma_open_cell_has_neighbours(g: Seq<Seq<bool>>, x: int, z: int)
    requires
        rectangular(g),
        bordered(g),
        is_open(g, x, z),
    ensures
        in_grid(g, x, z - 1),
        in_grid(g, x + 1, z),
        in_grid(g, x, z + 1),
        in_grid(g, x - 1, z),
{
    assert(!on_edge(g, x, z));
    assert(g[z - 1].len() == g[0].len());
    assert(g[z].len() == g[0].len());
    assert(g[z + 1].len() == g[0].len());
}

/// `line_end` stays between `from` and the end of the text, and points at a
/// line feed whenever it stops short of the end.
pub proof fn lemma_line_end_bounds(s: Seq<char>, from: int)
    requires
        0 <= from <= s.len(),
    ensures
        from <= line_end(s, from) <= s.len(),
        line_end(s, from) < s.len() ==> s[line_end(s, from)] == '\n',
        forall|k: int| from <= k < line_end(s, from) ==> s[k] != '\n',
    decreases s.len() - from,
{
    if from < s.len() && s[from] != '\n' {
        lemma_line_end_bounds(s, from + 1);
    }
}

/// A stretch without a line feed that stops at a line feed, or at the end of
/// the text, is where `line_end` stops.
pub proof fn lemma_line_end_is(s: Seq<char>, from: int, end: int)
    requires
        0 <= from <= end <= s.len(),
        forall|k: int| from <= k < end ==> s[k] != '\n',
        end < s.len() ==> s[end] == '\n',
    ensures
        line_end(s, from) == end,
    decreases end - from,
{
    if from < end {
        lemma_line_end_is(s, from + 1, end);
    }
}

/// Pushing a row onto the rows, and its line onto the lines, keeps the rows
/// the cells of the lines.
proof fn lemma_grid_push(map: Seq<Vec<bool>>, row: Vec<bool>, done: Seq<Seq<char>>, line: Seq<char>)
    requires
        grid_of(map) == done.map_values(|line: Seq<char>| row_cells(line)),
        row@ == row_cells(line),
    ensures
        grid_of(map.push(row)) == done.push(line).map_values(|line: Seq<char>| row_cells(line)),
{
    let cells = |line: Seq<char>| row_cells(line);
    assert(map.len() == done.len()) by {
        assert(grid_of(map).len() == done.map_values(cells).len());
    }
    assert forall|j: int| 0 <= j < map.len() + 1 implies grid_of(map.push(row))[j] == done.push(
        line,
    ).map_values(cells)[j] by {
        if j < map.len() {
            assert(grid_of(map)[j] == done.map_values(cells)[j]);
        }
    }
    assert(grid_of(map.push(row)) =~= done.push(line).map_values(cells));
}

/// Turns a map text into its grid: one row per line, `false` for a space and
/// `true` for any other character.
pub fn map_to_slice(content: &String) -> (map: Vec<Vec<bool>>)
    ensures
        grid_of(map@) == text_grid(content@),
{
    let ghost s = content@;
    let mut map: Vec<Vec<bool>> = Vec::new();
    let mut row: Vec<bool> = Vec::new();
    let mut after_cr = false;
    let mut pending = false;
    let ghost mut done: Seq<Seq<char>> = Seq::empty();
    let ghost mut start: int = 0;
    let ghost mut i: int = 0;
    let mut it = content.as_str().chars();
    loop
        invariant
            s == content@,
            0 <= start <= i <= s.len(),
            it.remaining() == s.skip(i),
            it.obeys_prophetic_iter_laws(),
            forall|k: int| start <= k < i ==> s[k] != '\n',
            row@ == row_cells(s.subrange(start, i)),
            pending == (start < i),
            after_cr == (start < i && s[i - 1] == '\r'),
            lines(s) == done + lines_from(s, start),
            grid_of(map@) == done.map_values(|line: Seq<char>| row_cells(line)),
        ensures
            i == s.len(),
        decreases s.len() - i,
    {
        match it.next() {
            Some(c) => {
                assert(c == s[i]);
                assert(s.skip(i).drop_first() =~= s.skip(i + 1));
                if c == '\n' {
                    let ghost raw = s.subrange(start, i);
                    if after_cr {
                        row.pop();
                    }
                    proof {
                        lemma_line_end_is(s, start, i);
                        assert(row@ =~= row_cells(strip_cr(raw)));
                        assert(lines_from(s, start) == seq![strip_cr(raw)] + lines_from(s, i + 1));
                        assert(done + lines_from(s, start) =~= done.push(strip_cr(raw))
                            + lines_from(s, i + 1));
                        lemma_grid_push(map@, row, done, strip_cr(raw));
                        done = done.push(strip_cr(raw));
                        start = i + 1;
                    }
                    map.push(row);
                    row = Vec::new();
                    after_cr = false;
                    pending = false;
                    assert(row@ =~= row_cells(s.subrange(start, i + 1)));
                } else {
                    row.push(c != ' ');
                    after_cr = c == '\r';
                    pending = true;
                    assert(row@ =~= row_cells(s.subrange(start, i + 1)));
                }
                proof {
                    i = i + 1;
                }
            },
            None => {
                break ;
            },
        }
    }
    if pending {
        proof {
            lemma_line_end_is(s, start, s.len() as int);
            assert(lines_from(s, start) == seq![s.subrange(start, s.len() as int)]);
            lemma_grid_push(map@, row, done, s.subrange(start, s.len() as int));
            assert(done + lines_from(s, start) =~= done.push(s.subrange(start, s.len() as int)));
        }
        map.push(row);
    } else {
        proof {
            assert(lines_from(s, start) =~= Seq::<Seq<char>>::empty());
            assert(done + lines_from(s, start) =~= done);
        }
    }
    map
}

/// Tells whether the grid has the shape of a playable map: at least three
/// rows, all rows of one length, at least one open cell.
pub fn is_grid_valid(map: &Vec<Vec<bool>>) -> (ok: bool)
    ensures
        ok == valid_grid(grid_of(map@)),
{
    let ghost g = grid_of(map@);
    if map.len() < 3 {
        return false;
    }
    let width = map[0].len();
    let mut found = false;
    let mut z: usize = 0;
    while z < map.len()
        invariant
            g == grid_of(map@),
            map.len() >= 3,
            width == g[0].len(),
            0 <= z <= map.len(),
            forall|k: int| 0 <= k < z ==> (#[trigger] g[k]).len() == width,
            found == (exists|x: int, k: int| 0 <= k < z && is_open(g, x, k)),
        decreases map.len() - z,
    {
        let row = &map[z];
        assert(row@ == g[z as int]);
        if row.len() != width {
            return false;
        }
        let ghost before = found;
        let mut x: usize = 0;
        while x < row.len()
            invariant
                g == grid_of(map@),
                0 <= z < map.len(),
                row@ == g[z as int],
                0 <= x <= row.len(),
                found == (before || exists|j: int| 0 <= j < x && !row@[j]),
            decreases row.len() - x,
        {
            if !row[x] {
                found = true;
            }
            x = x + 1;
        }
        proof {
            if found {
                if !before {
                    let j = choose|j: int| 0 <= j < row@.len() && !row@[j];
                    assert(is_open(g, j, z as int));
                }
            } else {
                assert forall|j: int, k: int| 0 <= k < z + 1 implies !is_open(g, j, k) by {
                    if k == z && is_open(g, j, k) {
                        assert(!row@[j]);
                    }
                }
            }
        }
        z = z + 1;
    }
    proof {
        if found {
            let (x, k) = choose|x: int, k: int| 0 <= k < z && is_open(g, x, k);
            assert(is_open(g, x, k));
        }
    }
    found
}

/// Tells whether a map text describes a playable grid: at least three lines,
/// all lines of one length, counted in characters, and at least one space.
pub fn is_map_valid(content: &String) -> (ok: bool)
    ensures
        ok == valid_grid(text_grid(content@)),
{
    let map = map_to_slice(content);
    is_grid_valid(&map)
}

/// Tells whether the grid is closed: no open cell on its outer edge, so that
/// each open cell has its four neighbours inside the grid.
pub fn is_bordered(map: &Vec<Vec<bool>>) -> (ok: bool)
    ensures
        ok == bordered(grid_of(map@)),
{
    let ghost g = grid_of(map@);
    let mut z: usize = 0;
    while z < map.len()
        invariant
            g == grid_of(map@),
            0 <= z <= map.len(),
            forall|x: int, k: int| 0 <= k < z && #[trigger] is_open(g, x, k) ==> !on_edge(g, x, k),
        decreases map.len() - z,
    {
        let row = &map[z];
        assert(row@ == g[z as int]);
        let outer_row = z == 0 || z == map.len() - 1;
        let mut x: usize = 0;
        while x < row.len()
            invariant
                g == grid_of(map@),
                0 <= z < map.len(),
                row@ == g[z as int],
                outer_row == (z == 0 || z == map.len() - 1),
                0 <= x <= row.len(),
                forall|j: int| 0 <= j < x && #[trigger] is_open(g, j, z as int) ==> !on_edge(g, j, z as int),
            decreases row.len() - x,
        {
            if !row[x] && (outer_row || x == 0 || x == row.len() - 1) {
                assert(is_open(g, x as int, z as int) && on_edge(g, x as int, z as int));
                return false;
            }
            x = x + 1;
        }
        z = z + 1;
    }
    true
}

/// Reads a map text into a grid, and refuses it where it is not a playable,
/// closed grid.
pub fn parse_map(content: &String) -> (parsed: Result<Vec<Vec<bool>>, MapError>)
    ensures
        match parsed {
            Ok(map) => grid_of(map@) == text_grid(content@) && valid_grid(text_grid(content@))
                && bordered(text_grid(content@)),
            Err(MapError::InvalidFormat) => !valid_grid(text_grid(content@)),
            Err(MapError::OpenBorder) => valid_grid(text_grid(content@)) && !bordered(
                text_grid(content@),
            ),
        },
{
    let map = map_to_slice(content);
    if !is_grid_valid(&map) {
        return Err(MapError::InvalidFormat);
    }
    if !is_bordered(&map) {
        return Err(MapError::OpenBorder);
    }
    Ok(map)
}

} // verus!
