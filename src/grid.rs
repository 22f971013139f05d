//! The occupancy grid: a square of cells, each a wall or open floor.
use vstd::arithmetic::div_mod::lemma_fundamental_div_mod_converse;
use vstd::prelude::*;

verus! {

/// Largest side a grid may have.
pub const MAX_SIDE: usize = 256;

/// A square grid of `side * side` cells stored row by row; a cell holds
/// `true` when it is a wall.
pub struct GridMap {
    pub side: usize,
    pub cells: Vec<bool>,
}

/// Whether `(row, col)` names a cell of a grid of the given side.
pub open spec fn cell_in_range(side: int, row: int, col: int) -> bool {
    0 <= row < side && 0 <= col < side
}

/// Whether `(row, col)` names a cell of a grid of the given side.
pub fn in_bounds(side: usize, row: i64, col: i64) -> (r: bool)
    ensures
        r == cell_in_range(side as int, row as int, col as int),
{
    0 <= row && 0 <= col && (row as u64) < (side as u64) && (col as u64) < (side as u64)
}

/// Position of cell `(row, col)` in the row-by-row cell list.
pub open spec fn cell_index(side: int, row: int, col: int) -> int {
    row * side + col
}

/// A cell on the grid has a position inside the cell list.
pub proof fn lemma_cell_index_in_range(side: int, row: int, col: int)
    requires
        cell_in_range(side, row, col),
    ensures
        0 <= cell_index(side, row, col) < side * side,
        side <= MAX_SIDE ==> side * side <= MAX_SIDE * MAX_SIDE,
        side <= MAX_SIDE ==> row * side <= MAX_SIDE * MAX_SIDE,
{
    assert(side <= MAX_SIDE ==> side * side <= MAX_SIDE * MAX_SIDE && row * side <= MAX_SIDE
        * MAX_SIDE) by (nonlinear_arith)
        requires
            0 <= row < side,
    ;
    assert(0 <= row * side + col < side * side) by (nonlinear_arith)
        requires
            0 <= row < side,
            0 <= col < side,
    ;
}

impl GridMap {
    /// The side is between 1 and `MAX_SIDE` and there is one flag per cell.
    pub open spec fn wf(&self) -> bool {
        1 <= self.side <= MAX_SIDE && self.cells@.len() == self.side * self.side
    }

    /// Whether `(row, col)` is a wall; a position off the grid is open.
    pub open spec fn wall(&self, row: int, col: int) -> bool {
        cell_in_range(self.side as int, row, col) && self.cells@[cell_index(
            self.side as int,
            row,
            col,
        )]
    }

    /// A grid of the given side with every cell open.
    pub fn new(side: usize) -> (g: GridMap)
        requires
            1 <= side <= MAX_SIDE,
        ensures
            g.wf(),
            g.side == side,
            forall|row: int, col: int| !#[trigger] g.wall(row, col),
    {
        assert(side * side <= MAX_SIDE * MAX_SIDE) by (nonlinear_arith)
            requires
                side <= MAX_SIDE,
        ;
        let cells: Vec<bool> = vec![false; side * side];
        let g = GridMap { side, cells };
        assert forall|row: int, col: int| !#[trigger] g.wall(row, col) by {
            if cell_in_range(side as int, row, col) {
                lemma_cell_index_in_range(side as int, row, col);
            }
        }
        g
    }

    /// A grid whose border cells are walls and whose other cells are open.
    pub fn bordered(side: usize) -> (g: GridMap)
        requires
            1 <= side <= MAX_SIDE,
        ensures
            g.wf(),
            g.side == side,
            forall|row: int, col: int|
                cell_in_range(side as int, row, col) ==> (#[trigger] g.wall(row, col) <==> (row
                    == 0 || col == 0 || row == side - 1 || col == side - 1)),
    {
        let mut g = GridMap::new(side);
        let mut row: usize = 0;
        while row < side
            invariant
                g.wf(),
                g.side == side,
                1 <= side <= MAX_SIDE,
                row <= side,
                forall|r: int, c: int|
                    cell_in_range(side as int, r, c) ==> (#[trigger] g.wall(r, c) <==> (r < row
                        && (r == 0 || c == 0 || r == side - 1 || c == side - 1))),
            decreases side - row,
        {
            let mut col: usize = 0;
            while col < side
                invariant
                    g.wf(),
                    g.side == side,
                    1 <= side <= MAX_SIDE,
                    row < side,
                    col <= side,
                    forall|r: int, c: int|
                        cell_in_range(side as int, r, c) ==> (#[trigger] g.wall(r, c) <==> ((r
                            < row || (r == row && c < col)) && (r == 0 || c == 0 || r == side
                            - 1 || c == side - 1))),
                decreases side - col,
            {
                let edge = row == 0 || col == 0 || row == side - 1 || col == side - 1;
                g.set(row as i64, col as i64, edge);
                col = col + 1;
            }
            row = row + 1;
        }
        g
    }

    /// Whether `(row, col)` is a wall; a position off the grid reads as open.
    pub fn is_wall(&self, row: i64, col: i64) -> (r: bool)
        requires
            self.wf(),
        ensures
            r == self.wall(row as int, col as int),
    {
        if in_bounds(self.side, row, col) {
            proof {
                lemma_cell_index_in_range(self.side as int, row as int, col as int);
            }
            self.cells[row as usize * self.side + col as usize]
        } else {
            false
        }
    }

    /// Makes `(row, col)` a wall or open floor.
    pub fn set(&mut self, row: i64, col: i64, wall: bool)
        requires
            old(self).wf(),
            cell_in_range(old(self).side as int, row as int, col as int),
        ensures
            final(self).wf(),
            final(self).side == old(self).side,
            final(self).wall(row as int, col as int) == wall,
            forall|r: int, c: int|
                !(r == row && c == col) ==> #[trigger] final(self).wall(r, c) == old(self).wall(
                    r,
                    c,
                ),
    {
        proof {
            lemma_cell_index_in_range(self.side as int, row as int, col as int);
        }
        let index = row as usize * self.side + col as usize;
        assert(index == cell_index(self.side as int, row as int, col as int));
        self.cells.set(index, wall);
        proof {
            assert forall|r: int, c: int| !(r == row && c == col) implies #[trigger] self.wall(
                r,
                c,
            ) == old(self).wall(r, c) by {
                if cell_in_range(self.side as int, r, c) {
                    lemma_cell_index_in_range(self.side as int, r, c);
                    lemma_cell_index_distinct(self.side as int, r, c, row as int, col as int);
                }
            }
        }
    }
}

/// Distinct cells have distinct positions in the cell list.
pub proof fn lemma_cell_index_distinct(side: int, r1: int, c1: int, r2: int, c2: int)
    requires
        cell_in_range(side, r1, c1),
        cell_in_range(side, r2, c2),
        !(r1 == r2 && c1 == c2),
    ensures
        cell_index(side, r1, c1) != cell_index(side, r2, c2),
{
    if r1 == r2 {
    } else if r1 < r2 {
        assert(r1 * side + c1 < r2 * side + c2) by (nonlinear_arith)
            requires
                r1 + 1 <= r2,
                0 <= c1 < side,
                0 <= c2,
        ;
    } else {
        assert(r2 * side + c2 < r1 * side + c1) by (nonlinear_arith)
            requires
                r2 + 1 <= r1,
                0 <= c2 < side,
                0 <= c1,
        ;
    }
}

/// Side of the built-in maze.
pub const MAZE_SIDE: usize = 15;

/// The cells of the built-in maze, row by row.
pub open spec fn maze_layout() -> Seq<bool> {
    seq![
        true, true, true, true, true, true, true, true, true, true, true, true, true, true, true,
        true, false, false, false, false, false, false, false, false, false, false, false, false, false, true,
        true, false, true, false, true, false, true, true, true, false, true, false, true, false, true,
        true, false, false, false, true, false, false, false, false, false, true, false, false, false, true,
        true, false, true, true, true, false, true, false, true, false, true, true, true, false, true,
        true, false, false, false, false, false, false, false, false, false, false, false, false, false, true,
        true, false, true, false, true, false, true, true, true, false, true, false, true, false, true,
        true, false, true, false, false, false, true, false, true, false, false, false, true, false, true,
        true, false, true, false, true, false, true, true, true, false, true, false, true, false, true,
        true, false, false, false, false, false, false, false, false, false, false, false, false, false, true,
        true, false, true, true, true, false, true, false, true, false, true, true, true, false, true,
        true, false, false, false, true, false, false, false, false, false, true, false, false, false, true,
        true, false, true, false, true, false, true, true, true, false, true, false, true, false, true,
        true, false, false, false, false, false, false, false, false, false, false, false, false, false, true,
        true, true, true, true, true, true, true, true, true, true, true, true, true, true, true,
    ]
}

impl GridMap {
    /// The built-in maze: a walled square of corridors around pillars.
    pub fn maze() -> (g: GridMap)
        ensures
            g.wf(),
            g.side == MAZE_SIDE,
            g.cells@ == maze_layout(),
            !g.wall(1, 1),
    {
        let cells: Vec<bool> = vec![
            true, true, true, true, true, true, true, true, true, true, true, true, true, true, true,
            true, false, false, false, false, false, false, false, false, false, false, false, false, false, true,
            true, false, true, false, true, false, true, true, true, false, true, false, true, false, true,
            true, false, false, false, true, false, false, false, false, false, true, false, false, false, true,
            true, false, true, true, true, false, true, false, true, false, true, true, true, false, true,
            true, false, false, false, false, false, false, false, false, false, false, false, false, false, true,
            true, false, true, false, true, false, true, true, true, false, true, false, true, false, true,
            true, false, true, false, false, false, true, false, true, false, false, false, true, false, true,
            true, false, true, false, true, false, true, true, true, false, true, false, true, false, true,
            true, false, false, false, false, false, false, false, false, false, false, false, false, false, true,
            true, false, true, true, true, false, true, false, true, false, true, true, true, false, true,
            true, false, false, false, true, false, false, false, false, false, true, false, false, false, true,
            true, false, true, false, true, false, true, true, true, false, true, false, true, false, true,
            true, false, false, false, false, false, false, false, false, false, false, false, false, false, true,
            true, true, true, true, true, true, true, true, true, true, true, true, true, true, true,
        ];
        assert(cells@ =~= maze_layout());
        GridMap { side: MAZE_SIDE, cells }
    }
}


/// Text digit of a wall cell.
pub const WALL_DIGIT: u8 = 49;

/// Text digit of an open cell.
pub const OPEN_DIGIT: u8 = 48;

/// End of a text row.
pub const ROW_END: u8 = 10;

/// The digit that writes a cell.
pub open spec fn digit(wall: bool) -> u8 {
    if wall {
        WALL_DIGIT
    } else {
        OPEN_DIGIT
    }
}

/// Byte `k` of the text of a grid: row by row, one digit per cell and a
/// row end after each row.
pub open spec fn encoded_byte(side: int, cells: Seq<bool>, k: int) -> u8 {
    let r = k / (side + 1);
    let c = k % (side + 1);
    if c == side {
        ROW_END
    } else {
        digit(cells[r * side + c])
    }
}

/// Length of the text of a grid of the given side.
pub open spec fn text_length(side: int) -> int {
    side * (side + 1)
}

/// The text of a grid of the given side and cells.
pub open spec fn encoded(side: int, cells: Seq<bool>) -> Seq<u8> {
    Seq::new(text_length(side) as nat, |k: int| encoded_byte(side, cells, k))
}

/// Whether `r` is what decoding `text` gives: the grid whose text it is, or
/// none when it is the text of no grid.
pub open spec fn decodes_to(text: Seq<u8>, r: Option<GridMap>) -> bool {
    match r {
        Some(g) => g.wf() && encoded(g.side as int, g.cells@) == text,
        None => forall|side: int, cells: Seq<bool>|
            1 <= side <= MAX_SIDE && cells.len() == side * side ==> #[trigger] encoded(side, cells)
                != text,
    }
}

/// Row `r`, column `c` of the text sits at `r * (side + 1) + c`.
proof fn lemma_text_position(side: int, r: int, c: int)
    requires
        1 <= side,
        0 <= r < side,
        0 <= c <= side,
    ensures
        (r * (side + 1) + c) / (side + 1) == r,
        (r * (side + 1) + c) % (side + 1) == c,
        0 <= r * (side + 1) + c < side * (side + 1),
        r * (side + 1) + c + 1 == (if c == side { (r + 1) * (side + 1) } else { r * (side + 1) + c + 1 }),
{
    lemma_fundamental_div_mod_converse(r * (side + 1) + c, side + 1, r, c);
    assert(0 <= r * (side + 1) + c < side * (side + 1)) by (nonlinear_arith)
        requires
            0 <= r < side,
            0 <= c <= side,
    ;
    assert((r + 1) * (side + 1) == r * (side + 1) + side + 1) by (nonlinear_arith);
}

/// Every text position splits into a row below `side` and a column.
proof fn lemma_position_of_text(side: int, k: int)
    requires
        1 <= side,
        0 <= k < side * (side + 1),
    ensures
        0 <= k / (side + 1) < side,
        0 <= k % (side + 1) <= side,
        k == (k / (side + 1)) * (side + 1) + k % (side + 1),
{
    let q = k / (side + 1);
    let m = k % (side + 1);
    assert(k == q * (side + 1) + m && 0 <= m < side + 1) by (nonlinear_arith)
        requires
            side + 1 > 0,
            q == k / (side + 1),
            m == k % (side + 1),
    ;
    lemma_quotient_below(k, q, m, side + 1, side);
}

/// From `k == q * d + m` with `0 <= m` and `0 <= k < s * d`: `0 <= q < s`.
proof fn lemma_quotient_below(k: int, q: int, m: int, d: int, s: int)
    requires
        d > 0,
        0 <= m < d,
        k == q * d + m,
        0 <= k < s * d,
    ensures
        0 <= q < s,
{
    if q >= s {
        assert(q * d >= s * d) by (nonlinear_arith)
            requires
                q >= s,
                d > 0,
        ;
    }
    if q < 0 {
        assert(q * d <= -d) by (nonlinear_arith)
            requires
                q <= -1,
                d > 0,
        ;
    }
}

/// Row-major positions before row `r` lie below `r * side`.
proof fn lemma_row_major_before(rr: int, cc: int, r: int, side: int)
    requires
        0 <= rr < r,
        0 <= cc < side,
    ensures
        0 <= rr * side + cc < r * side,
        0 <= rr * (side + 1) + cc < r * (side + 1),
        0 <= rr * (side + 1) + side < r * (side + 1),
{
    assert(0 <= rr * side + cc < r * side && 0 <= rr * (side + 1) + cc < r * (side + 1) && 0 <= rr
        * (side + 1) + side < r * (side + 1)) by (nonlinear_arith)
        requires
            0 <= rr < r,
            0 <= cc < side,
    ;
}

/// The text length determines the side.
proof fn lemma_text_length_unique(s1: int, s2: int)
    requires
        1 <= s1,
        1 <= s2,
        s1 * (s1 + 1) == s2 * (s2 + 1),
    ensures
        s1 == s2,
{
    if s1 < s2 {
        assert(s1 * (s1 + 1) < s2 * (s2 + 1)) by (nonlinear_arith)
            requires
                1 <= s1 < s2,
        ;
    } else if s2 < s1 {
        assert(s2 * (s2 + 1) < s1 * (s1 + 1)) by (nonlinear_arith)
            requires
                1 <= s2 < s1,
        ;
    }
}

/// Two grids with the same text have the same side and cells.
pub proof fn lemma_encoding_injective(s1: int, c1: Seq<bool>, s2: int, c2: Seq<bool>)
    requires
        1 <= s1,
        1 <= s2,
        c1.len() == s1 * s1,
        c2.len() == s2 * s2,
        encoded(s1, c1) == encoded(s2, c2),
    ensures
        s1 == s2,
        c1 == c2,
{
    assert(s1 * (s1 + 1) >= 0 && s2 * (s2 + 1) >= 0) by (nonlinear_arith)
        requires
            s1 >= 1,
            s2 >= 1,
    ;
    assert(encoded(s1, c1).len() == s1 * (s1 + 1));
    assert(encoded(s2, c2).len() == s2 * (s2 + 1));
    lemma_text_length_unique(s1, s2);
    assert forall|i: int| 0 <= i < c1.len() implies c1[i] == c2[i] by {
        let r = i / s1;
        let c = i % s1;
        assert(i == r * s1 + c && 0 <= c < s1) by (nonlinear_arith)
            requires
                s1 > 0,
                r == i / s1,
                c == i % s1,
        ;
        lemma_quotient_below(i, r, c, s1, s1);
        lemma_text_position(s1, r, c);
        let k = r * (s1 + 1) + c;
        assert(encoded(s1, c1)[k] == encoded_byte(s1, c1, k));
        assert(encoded(s2, c2)[k] == encoded_byte(s2, c2, k));
        assert(encoded_byte(s1, c1, k) == digit(c1[i]));
        assert(encoded_byte(s2, c2, k) == digit(c2[i]));
    }
    assert(c1 =~= c2);
}

impl GridMap {
    /// The grid as text: row by row, `1` for a wall and `0` for open floor,
    /// each row ended by a line feed.
    pub fn encode(&self) -> (text: Vec<u8>)
        requires
            self.wf(),
        ensures
            text@ == encoded(self.side as int, self.cells@),
    {
        let side = self.side;
        let mut text: Vec<u8> = Vec::new();
        let mut r: usize = 0;
        while r < side
            invariant
                self.wf(),
                side == self.side,
                r <= side,
                text@.len() == r * (side + 1),
                forall|k: int|
                    0 <= k < text@.len() ==> #[trigger] text@[k] == encoded_byte(
                        side as int,
                        self.cells@,
                        k,
                    ),
            decreases side - r,
        {
            let mut c: usize = 0;
            while c < side
                invariant
                    self.wf(),
                    side == self.side,
                    r < side,
                    c <= side,
                    text@.len() == r * (side + 1) + c,
                    forall|k: int|
                        0 <= k < text@.len() ==> #[trigger] text@[k] == encoded_byte(
                            side as int,
                            self.cells@,
                            k,
                        ),
                decreases side - c,
            {
                proof {
                    lemma_text_position(side as int, r as int, c as int);
                }
                let wall = self.is_wall(r as i64, c as i64);
                text.push(if wall { WALL_DIGIT } else { OPEN_DIGIT });
                c = c + 1;
            }
            proof {
                lemma_text_position(side as int, r as int, side as int);
            }
            text.push(ROW_END);
            r = r + 1;
        }
        assert(text@ =~= encoded(side as int, self.cells@));
        text
    }

    /// Reads a grid from its text, as `encode` writes it; none when the text
    /// is not that of a grid.
    pub fn decode(text: &Vec<u8>) -> (r: Option<GridMap>)
        ensures
            decodes_to(text@, r),
    {
        let n = text.len();
        let mut side: usize = 1;
        let mut found = false;
        while side <= MAX_SIDE && !found
            invariant
                1 <= side <= MAX_SIDE + 1,
                found ==> side <= MAX_SIDE && text_length(side as int) == n,
                !found ==> forall|s: int| 1 <= s < side ==> #[trigger] text_length(s) != n,
            decreases (MAX_SIDE + 1 - side) * 2 + (if found { 0int } else { 1 }),
        {
            assert(side * (side + 1) <= MAX_SIDE * (MAX_SIDE + 1)) by (nonlinear_arith)
                requires
                    1 <= side <= MAX_SIDE,
            ;
            if side * (side + 1) == n {
                found = true;
            } else {
                side = side + 1;
            }
        }
        if !found {
            proof {
                assert forall|sd: int, cells: Seq<bool>|
                    1 <= sd <= MAX_SIDE && cells.len() == sd * sd implies #[trigger] encoded(sd, cells)
                    != text@ by {
                    assert(encoded(sd, cells).len() == text_length(sd));
                }
            }
            return None;
        }
        assert(side * (side + 1) == n);
        let ghost text_side = side as int;
        let mut cells: Vec<bool> = Vec::new();
        let mut r: usize = 0;
        while r < side
            invariant
                1 <= side <= MAX_SIDE,
                text_side == side,
                side * (side + 1) == n,
                n == text@.len(),
                r <= side,
                cells@.len() == r * side,
                forall|rr: int, cc: int|
                    0 <= rr < r && 0 <= cc < side ==> text@[rr * (side + 1) + cc] == digit(
                        #[trigger] cells@[rr * side + cc],
                    ),
                forall|rr: int| 0 <= rr < r ==> #[trigger] text@[rr * (side + 1) + side] == ROW_END,
            decreases side - r,
        {
            let mut c: usize = 0;
            while c < side
                invariant
                    1 <= side <= MAX_SIDE,
                    side * (side + 1) == n,
                    n == text@.len(),
                    r < side,
                    c <= side,
                    cells@.len() == r * side + c,
                    forall|rr: int, cc: int|
                        0 <= rr < r && 0 <= cc < side ==> text@[rr * (side + 1) + cc] == digit(
                            #[trigger] cells@[rr * side + cc],
                        ),
                    forall|cc: int| 0 <= cc < c ==> text@[r * (side + 1) + cc] == digit(
                        #[trigger] cells@[r * side + cc],
                    ),
                    forall|rr: int| 0 <= rr < r ==> #[trigger] text@[rr * (side + 1) + side] == ROW_END,
                decreases side - c,
            {
                proof {
                    lemma_text_position(side as int, r as int, c as int);
                }
                let b = text[r * (side + 1) + c];
                if b == WALL_DIGIT || b == OPEN_DIGIT {
                    let ghost before = cells@;
                    cells.push(b == WALL_DIGIT);
                    proof {
                        assert forall|rr: int, cc: int|
                            0 <= rr < r && 0 <= cc < side implies text@[rr * (side + 1) + cc]
                            == digit(#[trigger] cells@[rr * side + cc]) by {
                            lemma_row_major_before(rr, cc, r as int, side as int);
                            assert(cells@[rr * side + cc] == before[rr * side + cc]);
                        }
                        assert forall|cc: int| 0 <= cc < c + 1 implies text@[r * (side + 1) + cc]
                            == digit(#[trigger] cells@[r * side + cc]) by {
                            if cc < c {
                                assert(cells@[r * side + cc] == before[r * side + cc]);
                            }
                        }
                    }
                } else {
                    proof {
                        assert forall|sd: int, cl: Seq<bool>|
                            1 <= sd <= MAX_SIDE && cl.len() == sd * sd implies #[trigger] encoded(
                            sd,
                            cl,
                        ) != text@ by {
                            if encoded(sd, cl) == text@ {
                                lemma_text_length_unique(sd, side as int);
                                let k = r * (side + 1) + c;
                                assert(encoded(sd, cl)[k] == encoded_byte(sd, cl, k));
                            }
                        }
                    }
                    return None;
                }
                c = c + 1;
            }
            proof {
                lemma_text_position(side as int, r as int, side as int);
                assert((r + 1) * side == r * side + side) by (nonlinear_arith);
            }
            if text[r * (side + 1) + side] != ROW_END {
                proof {
                    assert forall|sd: int, cl: Seq<bool>|
                        1 <= sd <= MAX_SIDE && cl.len() == sd * sd implies #[trigger] encoded(
                        sd,
                        cl,
                    ) != text@ by {
                        if encoded(sd, cl) == text@ {
                            lemma_text_length_unique(sd, side as int);
                            let k = r * (side + 1) + side;
                            assert(encoded(sd, cl)[k] == encoded_byte(sd, cl, k));
                        }
                    }
                }
                return None;
            }
            proof {
                assert forall|rr: int, cc: int|
                    0 <= rr < r + 1 && 0 <= cc < side implies text@[rr * (side + 1) + cc] == digit(
                    #[trigger] cells@[rr * side + cc],
                ) by {
                    if rr == r {
                    } else {
                        lemma_row_major_before(rr, cc, r as int, side as int);
                    }
                }
                assert forall|rr: int| 0 <= rr < r + 1 implies #[trigger] text@[rr * (side + 1)
                    + side] == ROW_END by {
                    if rr < r {
                        lemma_row_major_before(rr, 0, r as int, side as int);
                    }
                }
            }
            r = r + 1;
        }
        let g = GridMap { side, cells };
        proof {
            assert forall|k: int| 0 <= k < n implies #[trigger] text@[k] == encoded_byte(
                side as int,
                g.cells@,
                k,
            ) by {
                lemma_position_of_text(side as int, k);
                let rr = k / (side as int + 1);
                let cc = k % (side as int + 1);
                lemma_text_position(side as int, rr, cc);
                if cc < side {
                    assert(text@[rr * (side + 1) + cc] == digit(g.cells@[rr * side + cc]));
                } else {
                    assert(text@[rr * (side + 1) + side] == ROW_END);
                }
            }
            assert(encoded(side as int, g.cells@) =~= text@);
        }
        Some(g)
    }
}

/// Decoding the text that `encode` writes for a grid gives back a grid with
/// the same side and the same cells.
pub proof fn lemma_round_trip(g: GridMap, back: Option<GridMap>)
    requires
        g.wf(),
        decodes_to(encoded(g.side as int, g.cells@), back),
    ensures
        back matches Some(h) && h.side == g.side && h.cells@ == g.cells@,
{
    match back {
        Some(h) => {
            lemma_encoding_injective(h.side as int, h.cells@, g.side as int, g.cells@);
        },
        None => {
            assert(encoded(g.side as int, g.cells@) != encoded(g.side as int, g.cells@));
        },
    }
}

} // verus!
