//! The board: a rectangular grid of cells, line tracing, move legality,
//! move application with flips, terminal detection and scoring.

use vstd::prelude::*;

use crate::grid_position::GridPosition;
use crate::grid_store::{grid_cells, grid_cols, grid_get, grid_new, grid_rows, grid_set};
use crate::player::Player;

verus! {

/// Number of cell columns of the default board.
pub const GRID_COLS: usize = 8;

/// Number of cell rows of the default board.
pub const GRID_ROWS: usize = 8;

/// Largest board side the coordinate arithmetic supports (one step beyond
/// any cell must still fit in an `i16`).
pub const MAX_SIDE: usize = 32766;

/// The state of one cell of the board.
#[derive(Debug, Clone, Copy, PartialEq, Eq, Structural)]
pub enum Piece {
    BLACK,
    WHITE,
    EMPTY,
}

impl Piece {
    /// The opposing color: BLACK and WHITE swap; EMPTY has no opponent and
    /// maps to itself.
    pub open spec fn spec_next(&self) -> Piece {
        match self {
            Piece::BLACK => Piece::WHITE,
            Piece::WHITE => Piece::BLACK,
            Piece::EMPTY => Piece::EMPTY,
        }
    }

    /// Return the other color for self.
    ///
    /// - BLACK => WHITE
    /// - WHITE => BLACK
    /// - EMPTY => EMPTY (callers must not ask for the opponent of EMPTY;
    ///   the value maps to itself as a safe default)
    #[verifier::when_used_as_spec(spec_next)]
    pub fn next(&self) -> (r: Self)
        ensures
            r == self.spec_next(),
    {
        match self {
            Piece::BLACK => Piece::WHITE,
            Piece::WHITE => Piece::BLACK,
            Piece::EMPTY => Piece::EMPTY,
        }
    }
}

impl Piece {
    /// The name of the piece's state.
    pub open spec fn spec_text(&self) -> Seq<char> {
        match self {
            Piece::BLACK => "BLACK"@,
            Piece::WHITE => "WHITE"@,
            Piece::EMPTY => "EMPTY"@,
        }
    }

    /// The name of the piece's state, as text.
    pub fn text(&self) -> (r: String)
        ensures
            r@ == self.spec_text(),
    {
        match self {
            Piece::BLACK => "BLACK".to_owned(),
            Piece::WHITE => "WHITE".to_owned(),
            Piece::EMPTY => "EMPTY".to_owned(),
        }
    }
}

impl Default for Piece {
    /// A cell starts out empty.
    fn default() -> (r: Self)
        ensures
            r == Piece::EMPTY,
    {
        Piece::EMPTY
    }
}

/// True iff `(x, y)` denotes a cell of the board `b` (row `y`, column `x`).
pub open spec fn pos_in(b: Seq<Seq<Piece>>, x: int, y: int) -> bool {
    0 <= y < b.len() && 0 <= x < b[y].len()
}

/// The cell of `b` at column `x`, row `y`.
pub open spec fn cell(b: Seq<Seq<Piece>>, x: int, y: int) -> Piece {
    b[y][x]
}

/// A board is well formed when it is rectangular and each side fits the
/// coordinate arithmetic.
pub open spec fn board_rect(b: Seq<Seq<Piece>>) -> bool {
    &&& 1 <= b.len() <= MAX_SIDE
    &&& 1 <= b[0].len() <= MAX_SIDE
    &&& forall|r: int| 0 <= r < b.len() ==> (#[trigger] b[r]).len() == b[0].len()
}

/// The position `k` steps from `c` along the one-dimensional direction `d`.
pub open spec fn ray(c: int, d: int, k: nat) -> int
    decreases k,
{
    if k == 0 {
        c
    } else {
        ray(c, d, (k - 1) as nat) + d
    }
}

/// A direction vector has each component in `{-1, 0, 1}` and is not zero.
pub open spec fn is_direction(dx: int, dy: int) -> bool {
    -1 <= dx <= 1 && -1 <= dy <= 1 && !(dx == 0 && dy == 0)
}

/// Walking a ray is the same as jumping: `ray(c, d, k) == c + k * d`.
pub proof fn lemma_ray_linear(c: int, d: int, k: nat)
    ensures
        ray(c, d, k) == c + k * d,
    decreases k,
{
    if k == 0 {
        assert(k * d == 0) by (nonlinear_arith)
            requires
                k == 0,
        ;
    } else {
        lemma_ray_linear(c, d, (k - 1) as nat);
        assert(k * d == (k - 1) * d + d) by (nonlinear_arith);
    }
}

/// Two distinct step counts land on distinct cells along a direction.
pub proof fn lemma_ray_injective(x: int, y: int, dx: int, dy: int, k: nat, m: nat)
    requires
        is_direction(dx, dy),
        ray(x, dx, k) == ray(x, dx, m),
        ray(y, dy, k) == ray(y, dy, m),
    ensures
        k == m,
{
    lemma_ray_linear(x, dx, k);
    lemma_ray_linear(x, dx, m);
    lemma_ray_linear(y, dy, k);
    lemma_ray_linear(y, dy, m);
    if dx != 0 {
        assert(k * dx == m * dx);
        assert(k == m) by (nonlinear_arith)
            requires
                k * dx == m * dx,
                dx == -1 || dx == 1,
        ;
    } else {
        assert(k * dy == m * dy);
        assert(k == m) by (nonlinear_arith)
            requires
                k * dy == m * dy,
                dy == -1 || dy == 1,
        ;
    }
}

/// A ray cell that is still on the board bounds how many steps were taken.
pub proof fn lemma_ray_bound(b: Seq<Seq<Piece>>, x: int, y: int, dx: int, dy: int, k: nat)
    requires
        board_rect(b),
        pos_in(b, x, y),
        is_direction(dx, dy),
        pos_in(b, ray(x, dx, k), ray(y, dy, k)),
    ensures
        k < b.len() + b[0].len(),
{
    lemma_ray_linear(x, dx, k);
    lemma_ray_linear(y, dy, k);
    let rows = b.len() as int;
    let cols = b[0].len() as int;
    if dx == 1 {
        assert(k * 1 == k) by (nonlinear_arith);
    } else if dx == -1 {
        assert(k * -1 == -k) by (nonlinear_arith);
    } else if dy == 1 {
        assert(k * 1 == k) by (nonlinear_arith);
        assert(k * 0 == 0) by (nonlinear_arith);
    } else {
        assert(k * -1 == -k) by (nonlinear_arith);
        assert(k * 0 == 0) by (nonlinear_arith);
    }
}

/// The ray from `(x, y)` stays on the board for exactly `m` steps.
pub open spec fn ray_stop(b: Seq<Seq<Piece>>, x: int, y: int, dx: int, dy: int, m: nat) -> bool {
    &&& forall|k: nat| k <= m ==> pos_in(b, #[trigger] ray(x, dx, k), ray(y, dy, k))
    &&& !pos_in(b, ray(x, dx, (m + 1) as nat), ray(y, dy, (m + 1) as nat))
}

/// Placing `p` at `(x, y)` captures a line of `n - 1` opponent cells in
/// direction `(dx, dy)`: the `n`th ray cell is on the board and holds `p`,
/// and every ray cell strictly before it holds the opponent of `p`.
pub open spec fn line_captures(
    b: Seq<Seq<Piece>>,
    x: int,
    y: int,
    dx: int,
    dy: int,
    p: Piece,
    n: nat,
) -> bool {
    &&& 2 <= n
    &&& pos_in(b, ray(x, dx, n), ray(y, dy, n))
    &&& cell(b, ray(x, dx, n), ray(y, dy, n)) == p
    &&& forall|k: nat|
        1 <= k < n ==> pos_in(b, #[trigger] ray(x, dx, k), ray(y, dy, k)) && cell(
            b,
            ray(x, dx, k),
            ray(y, dy, k),
        ) == p.spec_next()
}

/// Some line is captured in direction `(dx, dy)`.
pub open spec fn dir_captures(
    b: Seq<Seq<Piece>>,
    x: int,
    y: int,
    dx: int,
    dy: int,
    p: Piece,
) -> bool {
    exists|n: nat| line_captures(b, x, y, dx, dy, p, n)
}

/// Placing `p` at `(x, y)` is a valid move: the target cell is an empty
/// board cell and at least one direction captures a line.
pub open spec fn valid_move(b: Seq<Seq<Piece>>, x: int, y: int, p: Piece) -> bool {
    &&& pos_in(b, x, y)
    &&& cell(b, x, y) == Piece::EMPTY
    &&& exists|dx: int, dy: int|
        is_direction(dx, dy) && #[trigger] dir_captures(b, x, y, dx, dy, p)
}

/// The cell `(x2, y2)` lies strictly between `(x, y)` and the `n`th ray cell
/// in direction `(dx, dy)`.
pub open spec fn on_ray_before(
    x: int,
    y: int,
    dx: int,
    dy: int,
    n: nat,
    x2: int,
    y2: int,
) -> bool {
    exists|k: nat| 1 <= k < n && x2 == #[trigger] ray(x, dx, k) && y2 == ray(y, dy, k)
}

/// The cell `(x2, y2)` is flipped when `p` is placed at `(x, y)`: it lies on
/// a captured line, strictly between the move and the first own cell.
pub open spec fn captured(
    b: Seq<Seq<Piece>>,
    x: int,
    y: int,
    p: Piece,
    x2: int,
    y2: int,
) -> bool {
    exists|dx: int, dy: int, n: nat|
        is_direction(dx, dy) && #[trigger] line_captures(b, x, y, dx, dy, p, n) && on_ray_before(
            x,
            y,
            dx,
            dy,
            n,
            x2,
            y2,
        )
}

/// A valid move always targets an empty cell of the board: the set of valid
/// moves of a side is a subset of the board's empty cells.
pub proof fn lemma_valid_move_empty(b: Seq<Seq<Piece>>, x: int, y: int, p: Piece)
    requires
        valid_move(b, x, y, p),
    ensures
        pos_in(b, x, y),
        cell(b, x, y) == Piece::EMPTY,
{
}

/// A captured line has exactly one possible length: the first own cell along
/// the ray bounds it.
pub proof fn lemma_capture_unique(
    b: Seq<Seq<Piece>>,
    x: int,
    y: int,
    dx: int,
    dy: int,
    p: Piece,
    n1: nat,
    n2: nat,
)
    requires
        p != Piece::EMPTY,
        line_captures(b, x, y, dx, dy, p, n1),
        line_captures(b, x, y, dx, dy, p, n2),
    ensures
        n1 == n2,
{
    if n1 < n2 {
        assert(cell(b, ray(x, dx, n1), ray(y, dy, n1)) == p.spec_next());
    } else if n2 < n1 {
        assert(cell(b, ray(x, dx, n2), ray(y, dy, n2)) == p.spec_next());
    }
}

/// The cell `(x2, y2)` lies strictly inside one of the marked lines: each
/// mark pairs a direction with the step count of the first own cell.
pub open spec fn marked(
    x: int,
    y: int,
    marks: Seq<(GridPosition, usize)>,
    x2: int,
    y2: int,
) -> bool {
    exists|l: int|
        0 <= l < marks.len() && on_ray_before(
            x,
            y,
            (#[trigger] marks[l]).0.x as int,
            marks[l].0.y as int,
            marks[l].1 as nat,
            x2,
            y2,
        )
}

/// How a board changes when `p` is placed at `(x, y)`: same dimensions, the
/// target holds `p`, every captured cell holds `p`, everything else is
/// unchanged.
pub open spec fn update_result(
    b: Seq<Seq<Piece>>,
    x: int,
    y: int,
    p: Piece,
    nb: Seq<Seq<Piece>>,
) -> bool {
    &&& nb.len() == b.len()
    &&& forall|r: int| 0 <= r < b.len() ==> (#[trigger] nb[r]).len() == b[r].len()
    &&& cell(nb, x, y) == p
    &&& forall|x2: int, y2: int|
        pos_in(b, x2, y2) && !(x2 == x && y2 == y) ==> #[trigger] cell(nb, x2, y2) == (
        if captured(b, x, y, p, x2, y2) {
            p
        } else {
            cell(b, x2, y2)
        })
}

/// The side placing `p` has at least one valid move.
pub open spec fn can_play_spec(b: Seq<Seq<Piece>>, p: Piece) -> bool {
    exists|x: int, y: int| valid_move(b, x, y, p)
}

/// The game is over: neither side has any legal move remaining.
pub open spec fn finished(b: Seq<Seq<Piece>>) -> bool {
    !can_play_spec(b, Piece::BLACK) && !can_play_spec(b, Piece::WHITE)
}

/// No empty cell remains.
pub open spec fn full(b: Seq<Seq<Piece>>) -> bool {
    forall|x: int, y: int| pos_in(b, x, y) ==> #[trigger] cell(b, x, y) != Piece::EMPTY
}

/// `a` comes strictly before `b` in row-major order (row first, then
/// column).
pub open spec fn row_major_lt(a: GridPosition, b: GridPosition) -> bool {
    a.y < b.y || (a.y == b.y && a.x < b.x)
}

/// How many cells of one row hold the piece `p`.
pub open spec fn count_in_row(row: Seq<Piece>, p: Piece) -> nat
    decreases row.len(),
{
    if row.len() == 0 {
        0
    } else {
        count_in_row(row.drop_last(), p) + if row.last() == p {
            1nat
        } else {
            0nat
        }
    }
}

/// How many cells of the board hold the piece `p`.
pub open spec fn count_cells(b: Seq<Seq<Piece>>, p: Piece) -> nat
    decreases b.len(),
{
    if b.len() == 0 {
        0
    } else {
        count_cells(b.drop_last(), p) + count_in_row(b.last(), p)
    }
}

/// How many cells the board has in all.
pub open spec fn total_cells(b: Seq<Seq<Piece>>) -> nat
    decreases b.len(),
{
    if b.len() == 0 {
        0
    } else {
        total_cells(b.drop_last()) + b.last().len()
    }
}

proof fn lemma_row_partition(row: Seq<Piece>)
    ensures
        count_in_row(row, Piece::BLACK) + count_in_row(row, Piece::WHITE) + count_in_row(
            row,
            Piece::EMPTY,
        ) == row.len(),
    decreases row.len(),
{
    if row.len() > 0 {
        lemma_row_partition(row.drop_last());
    }
}

/// Every cell holds exactly one of the three states, so the two sides'
/// scores and the number of empty cells always add up to the cell count.
pub proof fn lemma_score_partition(b: Seq<Seq<Piece>>)
    ensures
        count_cells(b, Piece::BLACK) + count_cells(b, Piece::WHITE) + count_cells(b, Piece::EMPTY)
            == total_cells(b),
    decreases b.len(),
{
    if b.len() > 0 {
        lemma_row_partition(b.last());
        lemma_score_partition(b.drop_last());
    }
}

proof fn lemma_count_in_row_le(row: Seq<Piece>, p: Piece)
    ensures
        count_in_row(row, p) <= row.len(),
    decreases row.len(),
{
    if row.len() > 0 {
        lemma_count_in_row_le(row.drop_last(), p);
    }
}

proof fn lemma_count_cells_le(b: Seq<Seq<Piece>>, p: Piece)
    ensures
        count_cells(b, p) <= total_cells(b),
    decreases b.len(),
{
    if b.len() > 0 {
        lemma_count_in_row_le(b.last(), p);
        lemma_count_cells_le(b.drop_last(), p);
    }
}

proof fn lemma_count_in_row_take_step(row: Seq<Piece>, p: Piece, j: int)
    requires
        0 <= j < row.len(),
    ensures
        count_in_row(row.take(j + 1), p) == count_in_row(row.take(j), p) + if row[j] == p {
            1nat
        } else {
            0nat
        },
{
    assert(row.take(j + 1).drop_last() =~= row.take(j));
    assert(row.take(j + 1).last() == row[j]);
}

proof fn lemma_count_cells_take_step(b: Seq<Seq<Piece>>, p: Piece, i: int)
    requires
        0 <= i < b.len(),
    ensures
        count_cells(b.take(i + 1), p) == count_cells(b.take(i), p) + count_in_row(b[i], p),
{
    assert(b.take(i + 1).drop_last() =~= b.take(i));
    assert(b.take(i + 1).last() == b[i]);
}

proof fn lemma_count_in_row_take_le(row: Seq<Piece>, p: Piece, j: int)
    requires
        0 <= j <= row.len(),
    ensures
        count_in_row(row.take(j), p) <= count_in_row(row, p),
    decreases row.len() - j,
{
    if j == row.len() {
        assert(row.take(j) =~= row);
    } else {
        lemma_count_in_row_take_step(row, p, j);
        lemma_count_in_row_take_le(row, p, j + 1);
    }
}

proof fn lemma_count_cells_take_le(b: Seq<Seq<Piece>>, p: Piece, i: int)
    requires
        0 <= i <= b.len(),
    ensures
        count_cells(b.take(i), p) <= count_cells(b, p),
    decreases b.len() - i,
{
    if i == b.len() {
        assert(b.take(i) =~= b);
    } else {
        lemma_count_cells_take_step(b, p, i);
        lemma_count_cells_take_le(b, p, i + 1);
    }
}

/// The four seeded center cells of a fresh board: two of each color,
/// diagonally opposed.
pub open spec fn in_center4(rows: int, cols: int, x: int, y: int) -> bool {
    let mx = cols / 2 - 1;
    let my = rows / 2 - 1;
    (x == mx || x == mx + 1) && (y == my || y == my + 1)
}

/// The cell a freshly initialized `rows` x `cols` board holds at `(x, y)`.
pub open spec fn initial_cell(rows: int, cols: int, x: int, y: int) -> Piece {
    let mx = cols / 2 - 1;
    let my = rows / 2 - 1;
    if (x == mx && y == my + 1) || (x == mx + 1 && y == my) {
        Piece::BLACK
    } else if (x == mx && y == my) || (x == mx + 1 && y == my + 1) {
        Piece::WHITE
    } else {
        Piece::EMPTY
    }
}

/// The board that the game is played on.
pub struct Board {
    grid: grid::Grid<Piece>,
    rows: usize,
    cols: usize,
}

impl View for Board {
    type V = Seq<Seq<Piece>>;

    closed spec fn view(&self) -> Seq<Seq<Piece>> {
        grid_cells(self.grid)
    }
}

impl Board {
    /// The cached dimensions match the grid, and the grid is a well-formed
    /// rectangle.
    pub closed spec fn wf(&self) -> bool {
        &&& board_rect(self@)
        &&& self.rows == self@.len()
        &&& self.cols == self@[0].len()
    }

    /// A well-formed board is a rectangle of cells.
    pub proof fn lemma_wf(&self)
        requires
            self.wf(),
        ensures
            board_rect(self@),
    {
    }

    /// Create a new empty board of the default dimensions.
    pub fn new() -> (r: Self)
        ensures
            r.wf(),
            r@.len() == GRID_ROWS,
            forall|y: int| 0 <= y < GRID_ROWS ==> (#[trigger] r@[y]).len() == GRID_COLS,
            forall|x: int, y: int|
                pos_in(r@, x, y) ==> #[trigger] cell(r@, x, y) == Piece::EMPTY,
    {
        Board::with_size(GRID_ROWS, GRID_COLS)
    }

    /// Create a new empty board of the given dimensions.
    pub fn with_size(rows: usize, cols: usize) -> (r: Self)
        requires
            1 <= rows <= MAX_SIDE,
            1 <= cols <= MAX_SIDE,
        ensures
            r.wf(),
            r@.len() == rows,
            forall|y: int| 0 <= y < rows ==> (#[trigger] r@[y]).len() == cols,
            forall|x: int, y: int|
                pos_in(r@, x, y) ==> #[trigger] cell(r@, x, y) == Piece::EMPTY,
    {
        let grid = grid_new(rows, cols, Piece::EMPTY);
        Board { grid, rows, cols }
    }

    /// Take over a manually prepared grid of cells.
    pub fn set_board(board: grid::Grid<Piece>) -> (r: Self)
        requires
            1 <= grid_cells(board).len() <= MAX_SIDE,
            1 <= grid_cells(board)[0].len() <= MAX_SIDE,
        ensures
            r.wf(),
            r@ == grid_cells(board),
    {
        let rows = grid_rows(&board);
        let cols = grid_cols(&board);
        Board { grid: board, rows, cols }
    }

    /// The number of rows of the board.
    pub fn rows(&self) -> (r: usize)
        requires
            self.wf(),
        ensures
            r == self@.len(),
    {
        self.rows
    }

    /// The number of columns of the board.
    pub fn cols(&self) -> (r: usize)
        requires
            self.wf(),
        ensures
            r == self@[0].len(),
    {
        self.cols
    }

    /// Verify if a position is in the board.
    pub fn in_board(&self, position: GridPosition) -> (r: bool)
        requires
            self.wf(),
        ensures
            r == pos_in(self@, position.x as int, position.y as int),
    {
        0 <= position.x && (position.x as usize) < self.cols && 0 <= position.y && (
        position.y as usize) < self.rows
    }

    /// Get a specific case of the board.
    pub fn get(&self, position: GridPosition) -> (r: Piece)
        requires
            self.wf(),
            pos_in(self@, position.x as int, position.y as int),
        ensures
            r == cell(self@, position.x as int, position.y as int),
    {
        grid_get(&self.grid, position.y as usize, position.x as usize)
    }

    /// Set a specific case of the board.
    pub fn set(&mut self, position: GridPosition, piece: Piece)
        requires
            old(self).wf(),
            pos_in(old(self)@, position.x as int, position.y as int),
        ensures
            final(self).wf(),
            final(self)@ == old(self)@.update(
                position.y as int,
                old(self)@[position.y as int].update(position.x as int, piece),
            ),
            final(self)@.len() == old(self)@.len(),
            forall|y: int| 0 <= y < old(self)@.len() ==> (#[trigger] final(self)@[y]).len()
                == old(self)@[y].len(),
            cell(final(self)@, position.x as int, position.y as int) == piece,
            forall|x2: int, y2: int|
                pos_in(old(self)@, x2, y2) && !(x2 == position.x as int && y2 == position.y as int)
                    ==> #[trigger] cell(final(self)@, x2, y2) == cell(old(self)@, x2, y2),
    {
        grid_set(&mut self.grid, position.y as usize, position.x as usize, piece);
    }

    /// Get the last position in a direction from a start that is still in
    /// the board (the ray's own bound, not one past it).
    pub fn get_end_line(&self, position: GridPosition, direction: GridPosition) -> (r:
        GridPosition)
        requires
            self.wf(),
            pos_in(self@, position.x as int, position.y as int),
            is_direction(direction.x as int, direction.y as int),
        ensures
            exists|m: nat|
                #[trigger] ray_stop(
                    self@,
                    position.x as int,
                    position.y as int,
                    direction.x as int,
                    direction.y as int,
                    m,
                ) && r.x == ray(position.x as int, direction.x as int, m) && r.y == ray(
                    position.y as int,
                    direction.y as int,
                    m,
                ),
    {
        let ghost x = position.x as int;
        let ghost y = position.y as int;
        let ghost dx = direction.x as int;
        let ghost dy = direction.y as int;
        let mut fx: i16 = position.x;
        let mut fy: i16 = position.y;
        let mut k: usize = 0;
        loop
            invariant
                self.wf(),
                pos_in(self@, x, y),
                is_direction(dx, dy),
                direction.x == dx && direction.y == dy,
                fx as int == ray(x, dx, k as nat),
                fy as int == ray(y, dy, k as nat),
                forall|j: nat| j < k ==> pos_in(self@, #[trigger] ray(x, dx, j), ray(y, dy, j)),
                k <= self@.len() + self@[0].len(),
            ensures
                1 <= k,
                !pos_in(self@, ray(x, dx, k as nat), ray(y, dy, k as nat)),
            decreases self@.len() + self@[0].len() - k,
        {
            if !self.in_board(GridPosition { x: fx, y: fy }) {
                break;
            }
            proof {
                lemma_ray_bound(self@, x, y, dx, dy, k as nat);
            }
            fx = fx + direction.x;
            fy = fy + direction.y;
            k = k + 1;
        }
        proof {
            let m = (k - 1) as nat;
            assert(ray(x, dx, k as nat) == ray(x, dx, m) + dx);
            assert(ray(y, dy, k as nat) == ray(y, dy, m) + dy);
            assert(ray_stop(self@, x, y, dx, dy, m));
        }
        GridPosition { x: fx - direction.x, y: fy - direction.y }
    }

    /// Return the line from the start position to the bound of the board:
    /// every in-bounds position from one step after `start`, near to far.
    pub fn get_line(&self, start: GridPosition, direction: GridPosition) -> (line: Vec<
        GridPosition,
    >)
        requires
            self.wf(),
            pos_in(self@, start.x as int, start.y as int),
            is_direction(direction.x as int, direction.y as int),
        ensures
            forall|i: int|
                0 <= i < line@.len() ==> (#[trigger] line@[i]).x as int == ray(
                    start.x as int,
                    direction.x as int,
                    (i + 1) as nat,
                ) && line@[i].y as int == ray(start.y as int, direction.y as int, (i + 1) as nat),
            forall|k: nat|
                k <= line@.len() ==> pos_in(
                    self@,
                    #[trigger] ray(start.x as int, direction.x as int, k),
                    ray(start.y as int, direction.y as int, k),
                ),
            !pos_in(
                self@,
                ray(start.x as int, direction.x as int, (line@.len() + 1) as nat),
                ray(start.y as int, direction.y as int, (line@.len() + 1) as nat),
            ),
    {
        let ghost x = start.x as int;
        let ghost y = start.y as int;
        let ghost dx = direction.x as int;
        let ghost dy = direction.y as int;
        let last_position = self.get_end_line(start, direction);
        let ghost m = choose|m: nat|
            ray_stop(self@, x, y, dx, dy, m) && last_position.x == ray(x, dx, m)
                && last_position.y == ray(y, dy, m);
        let mut current_position = start;
        let mut line: Vec<GridPosition> = Vec::new();
        let ghost mut k: nat = 0nat;
        loop
            invariant
                self.wf(),
                pos_in(self@, x, y),
                is_direction(dx, dy),
                direction.x == dx && direction.y == dy,
                ray_stop(self@, x, y, dx, dy, m),
                last_position.x == ray(x, dx, m) && last_position.y == ray(y, dy, m),
                k <= m,
                current_position.x as int == ray(x, dx, k),
                current_position.y as int == ray(y, dy, k),
                line@.len() == k,
                forall|i: int|
                    0 <= i < line@.len() ==> (#[trigger] line@[i]).x as int == ray(
                        x,
                        dx,
                        (i + 1) as nat,
                    ) && line@[i].y as int == ray(y, dy, (i + 1) as nat),
            ensures
                k == m,
                line@.len() == m,
            decreases m - k,
        {
            if current_position.x == last_position.x && current_position.y == last_position.y {
                proof {
                    lemma_ray_injective(x, y, dx, dy, k, m);
                }
                break;
            }
            proof {
                if k == m {
                    assert(false);
                }
            }
            current_position = GridPosition {
                x: current_position.x + direction.x,
                y: current_position.y + direction.y,
            };
            line.push(current_position);
            proof {
                k = k + 1;
            }
        }
        line
    }

    /// Return a vector of the eight unit directions.
    /// ```txt
    /// 1 2 3
    /// 4 . 5
    /// 6 7 8
    /// ```
    fn get_directions() -> (r: Vec<GridPosition>)
        ensures
            r@.len() == 8,
            forall|i: int|
                0 <= i < 8 ==> is_direction((#[trigger] r@[i]).x as int, r@[i].y as int),
            forall|d: GridPosition|
                is_direction(d.x as int, d.y as int) ==> #[trigger] r@.contains(d),
    {
        let mut directions: Vec<GridPosition> = Vec::new();
        directions.push(GridPosition { x: -1, y: -1 });
        directions.push(GridPosition { x: -1, y: 0 });
        directions.push(GridPosition { x: -1, y: 1 });
        directions.push(GridPosition { x: 0, y: -1 });
        directions.push(GridPosition { x: 0, y: 1 });
        directions.push(GridPosition { x: 1, y: -1 });
        directions.push(GridPosition { x: 1, y: 0 });
        directions.push(GridPosition { x: 1, y: 1 });
        proof {
            assert forall|d: GridPosition|
                is_direction(d.x as int, d.y as int) implies #[trigger] directions@.contains(
                d,
            ) by {
                if d.x == -1 && d.y == -1 {
                    assert(directions@[0] == d);
                } else if d.x == -1 && d.y == 0 {
                    assert(directions@[1] == d);
                } else if d.x == -1 && d.y == 1 {
                    assert(directions@[2] == d);
                } else if d.x == 0 && d.y == -1 {
                    assert(directions@[3] == d);
                } else if d.x == 0 && d.y == 1 {
                    assert(directions@[4] == d);
                } else if d.x == 1 && d.y == -1 {
                    assert(directions@[5] == d);
                } else if d.x == 1 && d.y == 0 {
                    assert(directions@[6] == d);
                } else {
                    assert(directions@[7] == d);
                }
            }
        }
        directions
    }

    /// Scan one direction from a move target: `Some(n)` when the `n`th ray
    /// cell holds the mover's piece with only opponent cells before it,
    /// `None` when the direction captures nothing.
    fn scan_direction(&self, position: GridPosition, direction: GridPosition, player_piece: Piece)
        -> (r: Option<usize>)
        requires
            self.wf(),
            pos_in(self@, position.x as int, position.y as int),
            is_direction(direction.x as int, direction.y as int),
            player_piece != Piece::EMPTY,
        ensures
            match r {
                Some(n) => line_captures(
                    self@,
                    position.x as int,
                    position.y as int,
                    direction.x as int,
                    direction.y as int,
                    player_piece,
                    n as nat,
                ),
                None => !dir_captures(
                    self@,
                    position.x as int,
                    position.y as int,
                    direction.x as int,
                    direction.y as int,
                    player_piece,
                ),
            },
    {
        let ghost x = position.x as int;
        let ghost y = position.y as int;
        let ghost dx = direction.x as int;
        let ghost dy = direction.y as int;
        let line = self.get_line(position, direction);
        let mut i: usize = 0;
        while i < line.len()
            invariant
                self.wf(),
                pos_in(self@, x, y),
                is_direction(dx, dy),
                x == position.x as int && y == position.y as int,
                dx == direction.x as int && dy == direction.y as int,
                player_piece != Piece::EMPTY,
                i <= line@.len(),
                forall|j: int|
                    0 <= j < line@.len() ==> (#[trigger] line@[j]).x as int == ray(
                        x,
                        dx,
                        (j + 1) as nat,
                    ) && line@[j].y as int == ray(y, dy, (j + 1) as nat),
                forall|k: nat|
                    k <= line@.len() ==> pos_in(self@, #[trigger] ray(x, dx, k), ray(y, dy, k)),
                !pos_in(
                    self@,
                    ray(x, dx, (line@.len() + 1) as nat),
                    ray(y, dy, (line@.len() + 1) as nat),
                ),
                forall|k: nat|
                    1 <= k <= i ==> cell(self@, #[trigger] ray(x, dx, k), ray(y, dy, k))
                        == player_piece.spec_next(),
            decreases line@.len() - i,
        {
            let new_piece = self.get(line[i]);
            if new_piece == Piece::EMPTY {
                proof {
                    let k0 = (i + 1) as nat;
                    assert(!dir_captures(self@, x, y, dx, dy, player_piece)) by {
                        if dir_captures(self@, x, y, dx, dy, player_piece) {
                            let n = choose|n: nat|
                                line_captures(self@, x, y, dx, dy, player_piece, n);
                            if n < k0 {
                                assert(cell(self@, ray(x, dx, n), ray(y, dy, n))
                                    == player_piece.spec_next());
                            } else if n > k0 {
                                assert(cell(self@, ray(x, dx, k0), ray(y, dy, k0))
                                    == player_piece.spec_next());
                            }
                            assert(false);
                        }
                    }
                }
                return None;
            } else if new_piece == player_piece {
                if i >= 1 {
                    return Some(i + 1);
                } else {
                    proof {
                        assert(!dir_captures(self@, x, y, dx, dy, player_piece)) by {
                            if dir_captures(self@, x, y, dx, dy, player_piece) {
                                let n = choose|n: nat|
                                    line_captures(self@, x, y, dx, dy, player_piece, n);
                                assert(cell(self@, ray(x, dx, 1nat), ray(y, dy, 1nat))
                                    == player_piece.spec_next());
                                assert(false);
                            }
                        }
                    }
                    return None;
                }
            }
            i = i + 1;
        }
        proof {
            let l = line@.len() as nat;
            assert(!dir_captures(self@, x, y, dx, dy, player_piece)) by {
                if dir_captures(self@, x, y, dx, dy, player_piece) {
                    let n = choose|n: nat| line_captures(self@, x, y, dx, dy, player_piece, n);
                    if n <= l {
                        assert(cell(self@, ray(x, dx, n), ray(y, dy, n))
                            == player_piece.spec_next());
                    } else if n > l + 1 {
                        assert(pos_in(
                            self@,
                            ray(x, dx, (l + 1) as nat),
                            ray(y, dy, (l + 1) as nat),
                        ));
                    }
                    assert(false);
                }
            }
        }
        None
    }

    /// Verify if this move is valid for a specific player.
    pub fn is_valid_move(&self, position: GridPosition, player_piece: Piece) -> (r: bool)
        requires
            self.wf(),
            pos_in(self@, position.x as int, position.y as int),
            player_piece != Piece::EMPTY,
        ensures
            r == valid_move(self@, position.x as int, position.y as int, player_piece),
    {
        let ghost x = position.x as int;
        let ghost y = position.y as int;
        if self.get(position) != Piece::EMPTY {
            return false;
        }
        let directions = Self::get_directions();
        let mut idx: usize = 0;
        while idx < directions.len()
            invariant
                self.wf(),
                pos_in(self@, x, y),
                x == position.x as int && y == position.y as int,
                cell(self@, x, y) == Piece::EMPTY,
                player_piece != Piece::EMPTY,
                idx <= 8,
                directions@.len() == 8,
                forall|i: int|
                    0 <= i < 8 ==> is_direction(
                        (#[trigger] directions@[i]).x as int,
                        directions@[i].y as int,
                    ),
                forall|d: GridPosition|
                    is_direction(d.x as int, d.y as int) ==> #[trigger] directions@.contains(d),
                forall|j: int|
                    0 <= j < idx ==> !dir_captures(
                        self@,
                        x,
                        y,
                        (#[trigger] directions@[j]).x as int,
                        directions@[j].y as int,
                        player_piece,
                    ),
            decreases 8 - idx,
        {
            let direction = directions[idx];
            match self.scan_direction(position, direction, player_piece) {
                Some(_) => {
                    proof {
                        assert(dir_captures(
                            self@,
                            x,
                            y,
                            direction.x as int,
                            direction.y as int,
                            player_piece,
                        ));
                    }
                    return true;
                },
                None => {},
            }
            idx = idx + 1;
        }
        proof {
            assert forall|dx: int, dy: int|
                is_direction(dx, dy) implies !#[trigger] dir_captures(
                self@,
                x,
                y,
                dx,
                dy,
                player_piece,
            ) by {
                let d = GridPosition { x: dx as i16, y: dy as i16 };
                assert(directions@.contains(d));
                let j = choose|j: int| 0 <= j < directions@.len() && directions@[j] == d;
                assert(!dir_captures(
                    self@,
                    x,
                    y,
                    directions@[j].x as int,
                    directions@[j].y as int,
                    player_piece,
                ));
            }
        }
        false
    }

    /// Update the board without any verification of the move's legality:
    /// place the piece at `position`, then flip every captured line. The
    /// caller is responsible for only placing legal moves.
    #[verifier::loop_isolation(false)]
    pub fn update(&mut self, position: GridPosition, player_piece: Piece)
        requires
            old(self).wf(),
            pos_in(old(self)@, position.x as int, position.y as int),
            player_piece != Piece::EMPTY,
        ensures
            final(self).wf(),
            update_result(
                old(self)@,
                position.x as int,
                position.y as int,
                player_piece,
                final(self)@,
            ),
    {
        let ghost b0 = self@;
        let ghost x = position.x as int;
        let ghost y = position.y as int;
        let directions = Self::get_directions();

        // First pass: find every direction whose line is captured, with the
        // step count of the bounding own cell, before any cell changes.
        let mut directions_to_eat: Vec<(GridPosition, usize)> = Vec::new();
        let mut idx: usize = 0;
        while idx < directions.len()
            invariant
                idx <= 8,
                forall|l: int|
                    0 <= l < directions_to_eat@.len() ==> is_direction(
                        (#[trigger] directions_to_eat@[l]).0.x as int,
                        directions_to_eat@[l].0.y as int,
                    ) && line_captures(
                        b0,
                        x,
                        y,
                        directions_to_eat@[l].0.x as int,
                        directions_to_eat@[l].0.y as int,
                        player_piece,
                        directions_to_eat@[l].1 as nat,
                    ),
                forall|j: int|
                    0 <= j < idx && dir_captures(
                        b0,
                        x,
                        y,
                        (#[trigger] directions@[j]).x as int,
                        directions@[j].y as int,
                        player_piece,
                    ) ==> exists|l: int|
                        0 <= l < directions_to_eat@.len() && (#[trigger] directions_to_eat@[l]).0
                            == directions@[j],
            decreases 8 - idx,
        {
            let direction = directions[idx];
            let ghost dte0 = directions_to_eat@;
            match self.scan_direction(position, direction, player_piece) {
                Some(n) => {
                    directions_to_eat.push((direction, n));
                },
                None => {},
            }
            proof {
                let dte = directions_to_eat@;
                assert forall|j: int|
                    0 <= j < idx + 1 && dir_captures(
                        b0,
                        x,
                        y,
                        (#[trigger] directions@[j]).x as int,
                        directions@[j].y as int,
                        player_piece,
                    ) implies exists|l: int|
                    0 <= l < dte.len() && (#[trigger] dte[l]).0 == directions@[j] by {
                    if j < idx {
                        let l = choose|l: int|
                            0 <= l < dte0.len() && (#[trigger] dte0[l]).0 == directions@[j];
                        assert(dte[l] == dte0[l]);
                        assert(0 <= l < dte.len() && dte[l].0 == directions@[j]);
                    } else {
                        assert(dte[dte.len() - 1].0 == directions@[j]);
                    }
                }
            }
            idx = idx + 1;
        }

        // Place the mover's piece, then flip each captured line in turn.
        self.set(position, player_piece);
        let ghost marks = directions_to_eat@;
        let mut t: usize = 0;
        while t < directions_to_eat.len()
            invariant
                t <= marks.len(),
                self.wf(),
                self@.len() == b0.len(),
                forall|r: int| 0 <= r < b0.len() ==> (#[trigger] self@[r]).len() == b0[r].len(),
                cell(self@, x, y) == player_piece,
                forall|x2: int, y2: int|
                    pos_in(b0, x2, y2) && !(x2 == x && y2 == y) ==> #[trigger] cell(self@, x2, y2)
                        == (if marked(x, y, marks.take(t as int), x2, y2) {
                        player_piece
                    } else {
                        cell(b0, x2, y2)
                    }),
            decreases marks.len() - t,
        {
            let pair = directions_to_eat[t];
            let direction = pair.0;
            let n = pair.1;
            let ghost dxl = direction.x as int;
            let ghost dyl = direction.y as int;
            proof {
                assert(ray(x, dxl, 0nat) == x && ray(y, dyl, 0nat) == y);
                assert(ray(x, dxl, 1nat) == x + dxl && ray(y, dyl, 1nat) == y + dyl);
            }
            let mut cx: i16 = position.x + direction.x;
            let mut cy: i16 = position.y + direction.y;
            let mut k: usize = 1;
            while k < n
                invariant
                    1 <= k <= n,
                    cx as int == ray(x, dxl, k as nat),
                    cy as int == ray(y, dyl, k as nat),
                    self.wf(),
                    self@.len() == b0.len(),
                    forall|r: int| 0 <= r < b0.len() ==> (#[trigger] self@[r]).len()
                        == b0[r].len(),
                    cell(self@, x, y) == player_piece,
                    forall|x2: int, y2: int|
                        pos_in(b0, x2, y2) && !(x2 == x && y2 == y) ==> #[trigger] cell(
                            self@,
                            x2,
                            y2,
                        ) == (if marked(x, y, marks.take(t as int), x2, y2) || on_ray_before(
                            x,
                            y,
                            dxl,
                            dyl,
                            k as nat,
                            x2,
                            y2,
                        ) {
                            player_piece
                        } else {
                            cell(b0, x2, y2)
                        }),
                decreases n - k,
            {
                proof {
                    assert(line_captures(b0, x, y, dxl, dyl, player_piece, n as nat));
                    assert(pos_in(b0, ray(x, dxl, k as nat), ray(y, dyl, k as nat)));
                    if cx as int == x && cy as int == y {
                        lemma_ray_injective(x, y, dxl, dyl, k as nat, 0nat);
                    }
                }
                let ghost before = self@;
                self.set(GridPosition { x: cx, y: cy }, player_piece);
                proof {
                    assert forall|x2: int, y2: int|
                        pos_in(b0, x2, y2) && !(x2 == x && y2 == y) implies #[trigger] cell(
                        self@,
                        x2,
                        y2,
                    ) == (if marked(x, y, marks.take(t as int), x2, y2) || on_ray_before(
                        x,
                        y,
                        dxl,
                        dyl,
                        (k + 1) as nat,
                        x2,
                        y2,
                    ) {
                        player_piece
                    } else {
                        cell(b0, x2, y2)
                    }) by {
                        if x2 == cx as int && y2 == cy as int {
                            assert(x2 == ray(x, dxl, k as nat) && y2 == ray(y, dyl, k as nat));
                            assert(on_ray_before(x, y, dxl, dyl, (k + 1) as nat, x2, y2));
                            assert(cell(self@, x2, y2) == player_piece);
                        } else {
                            assert(cell(self@, x2, y2) == cell(before, x2, y2));
                            if on_ray_before(x, y, dxl, dyl, (k + 1) as nat, x2, y2) {
                                let j = choose|j: nat|
                                    1 <= j < (k + 1) as nat && x2 == ray(x, dxl, j) && y2 == ray(
                                        y,
                                        dyl,
                                        j,
                                    );
                                if j == k as nat {
                                    assert(false);
                                }
                                assert(on_ray_before(x, y, dxl, dyl, k as nat, x2, y2));
                            } else {
                                if on_ray_before(x, y, dxl, dyl, k as nat, x2, y2) {
                                    let j = choose|j: nat|
                                        1 <= j < k as nat && x2 == ray(x, dxl, j) && y2 == ray(
                                            y,
                                            dyl,
                                            j,
                                        );
                                    assert(on_ray_before(
                                        x,
                                        y,
                                        dxl,
                                        dyl,
                                        (k + 1) as nat,
                                        x2,
                                        y2,
                                    ));
                                    assert(false);
                                }
                            }
                        }
                    }
                }
                cx = cx + direction.x;
                cy = cy + direction.y;
                k = k + 1;
            }
            proof {
                assert(marks[t as int] == (direction, n));
                assert forall|x2: int, y2: int|
                    pos_in(b0, x2, y2) && !(x2 == x && y2 == y) implies #[trigger] cell(
                    self@,
                    x2,
                    y2,
                ) == (if marked(x, y, marks.take((t + 1) as int), x2, y2) {
                    player_piece
                } else {
                    cell(b0, x2, y2)
                }) by {
                    let pre = marks.take(t as int);
                    let post = marks.take((t + 1) as int);
                    if marked(x, y, post, x2, y2) {
                        let l = choose|l: int|
                            0 <= l < post.len() && on_ray_before(
                                x,
                                y,
                                (#[trigger] post[l]).0.x as int,
                                post[l].0.y as int,
                                post[l].1 as nat,
                                x2,
                                y2,
                            );
                        if l < t as int {
                            assert(pre[l] == post[l]);
                            assert(marked(x, y, pre, x2, y2));
                        } else {
                            assert(post[l] == (direction, n));
                            assert(on_ray_before(x, y, dxl, dyl, n as nat, x2, y2));
                        }
                    } else {
                        if marked(x, y, pre, x2, y2) {
                            let l = choose|l: int|
                                0 <= l < pre.len() && on_ray_before(
                                    x,
                                    y,
                                    (#[trigger] pre[l]).0.x as int,
                                    pre[l].0.y as int,
                                    pre[l].1 as nat,
                                    x2,
                                    y2,
                                );
                            assert(post[l] == pre[l]);
                            assert(marked(x, y, post, x2, y2));
                            assert(false);
                        }
                        if on_ray_before(x, y, dxl, dyl, n as nat, x2, y2) {
                            assert(post[t as int] == (direction, n));
                            assert(marked(x, y, post, x2, y2));
                            assert(false);
                        }
                    }
                }
            }
            t = t + 1;
        }
        proof {
            assert(marks.take(marks.len() as int) =~= marks);
            assert forall|x2: int, y2: int|
                pos_in(b0, x2, y2) && !(x2 == x && y2 == y) implies #[trigger] cell(self@, x2, y2)
                == (if captured(b0, x, y, player_piece, x2, y2) {
                player_piece
            } else {
                cell(b0, x2, y2)
            }) by {
                if captured(b0, x, y, player_piece, x2, y2) {
                    let (dx2, dy2, n2) = choose|dx2: int, dy2: int, n2: nat|
                        is_direction(dx2, dy2) && #[trigger] line_captures(
                            b0,
                            x,
                            y,
                            dx2,
                            dy2,
                            player_piece,
                            n2,
                        ) && on_ray_before(x, y, dx2, dy2, n2, x2, y2);
                    let d = GridPosition { x: dx2 as i16, y: dy2 as i16 };
                    assert(d.x as int == dx2 && d.y as int == dy2);
                    assert(directions@.contains(d));
                    let j = choose|j: int| 0 <= j < directions@.len() && directions@[j] == d;
                    assert(dir_captures(b0, x, y, dx2, dy2, player_piece));
                    let l = choose|l: int|
                        0 <= l < marks.len() && (#[trigger] marks[l]).0 == directions@[j];
                    lemma_capture_unique(
                        b0,
                        x,
                        y,
                        dx2,
                        dy2,
                        player_piece,
                        n2,
                        marks[l].1 as nat,
                    );
                    assert(on_ray_before(
                        x,
                        y,
                        marks[l].0.x as int,
                        marks[l].0.y as int,
                        marks[l].1 as nat,
                        x2,
                        y2,
                    ));
                    assert(marked(x, y, marks, x2, y2));
                }
                if !captured(b0, x, y, player_piece, x2, y2) && marked(x, y, marks, x2, y2) {
                    let l = choose|l: int|
                        0 <= l < marks.len() && on_ray_before(
                            x,
                            y,
                            (#[trigger] marks[l]).0.x as int,
                            marks[l].0.y as int,
                            marks[l].1 as nat,
                            x2,
                            y2,
                        );
                    assert(line_captures(
                        b0,
                        x,
                        y,
                        marks[l].0.x as int,
                        marks[l].0.y as int,
                        player_piece,
                        marks[l].1 as nat,
                    ));
                    assert(captured(b0, x, y, player_piece, x2, y2));
                    assert(false);
                }
            }
        }
    }

    /// Compute and return all valid moves for a player, enumerated in
    /// row-major order (rows from top, each row left to right).
    #[verifier::loop_isolation(false)]
    pub fn get_valid_moves(&self, player_piece: Piece) -> (valid_moves: Vec<GridPosition>)
        requires
            self.wf(),
            player_piece != Piece::EMPTY,
        ensures
            forall|i: int|
                0 <= i < valid_moves@.len() ==> valid_move(
                    self@,
                    (#[trigger] valid_moves@[i]).x as int,
                    valid_moves@[i].y as int,
                    player_piece,
                ),
            forall|qx: int, qy: int|
                valid_move(self@, qx, qy, player_piece) ==> #[trigger] valid_moves@.contains(
                    GridPosition { x: qx as i16, y: qy as i16 },
                ),
            forall|i: int, j: int|
                0 <= i < j < valid_moves@.len() ==> row_major_lt(
                    #[trigger] valid_moves@[i],
                    #[trigger] valid_moves@[j],
                ),
    {
        let rows = self.rows;
        let cols = self.cols;
        let mut valid_moves: Vec<GridPosition> = Vec::new();
        let mut y: usize = 0;
        while y < rows
            invariant
                y <= rows,
                forall|i: int|
                    0 <= i < valid_moves@.len() ==> valid_move(
                        self@,
                        (#[trigger] valid_moves@[i]).x as int,
                        valid_moves@[i].y as int,
                        player_piece,
                    ),
                forall|qx: int, qy: int|
                    valid_move(self@, qx, qy, player_piece) && qy < y
                        ==> #[trigger] valid_moves@.contains(
                        GridPosition { x: qx as i16, y: qy as i16 },
                    ),
                forall|i: int|
                    0 <= i < valid_moves@.len() ==> (#[trigger] valid_moves@[i]).y < y,
                forall|i: int, j: int|
                    0 <= i < j < valid_moves@.len() ==> row_major_lt(
                        #[trigger] valid_moves@[i],
                        #[trigger] valid_moves@[j],
                    ),
            decreases rows - y,
        {
            let mut x: usize = 0;
            while x < cols
                invariant
                    x <= cols,
                    forall|i: int|
                        0 <= i < valid_moves@.len() ==> valid_move(
                            self@,
                            (#[trigger] valid_moves@[i]).x as int,
                            valid_moves@[i].y as int,
                            player_piece,
                        ),
                    forall|qx: int, qy: int|
                        valid_move(self@, qx, qy, player_piece) && (qy < y || (qy == y && qx < x))
                            ==> #[trigger] valid_moves@.contains(
                            GridPosition { x: qx as i16, y: qy as i16 },
                        ),
                    forall|i: int|
                        0 <= i < valid_moves@.len() ==> (#[trigger] valid_moves@[i]).y < y || (
                        valid_moves@[i].y == y && valid_moves@[i].x < x),
                    forall|i: int, j: int|
                        0 <= i < j < valid_moves@.len() ==> row_major_lt(
                            #[trigger] valid_moves@[i],
                            #[trigger] valid_moves@[j],
                        ),
                decreases cols - x,
            {
                let position = GridPosition { x: x as i16, y: y as i16 };
                if self.is_empty(position) {
                    if self.is_valid_move(position, player_piece) {
                        let ghost vm0 = valid_moves@;
                        valid_moves.push(position);
                        proof {
                            assert forall|qx: int, qy: int|
                                valid_move(self@, qx, qy, player_piece) && (qy < y || (qy == y && qx
                                    < x + 1)) implies #[trigger] valid_moves@.contains(
                                GridPosition { x: qx as i16, y: qy as i16 },
                            ) by {
                                if qy < y || (qy == y && qx < x) {
                                    assert(vm0.contains(
                                        GridPosition { x: qx as i16, y: qy as i16 },
                                    ));
                                    let ii = choose|ii: int|
                                        0 <= ii < vm0.len() && vm0[ii] == (GridPosition {
                                            x: qx as i16,
                                            y: qy as i16,
                                        });
                                    assert(valid_moves@[ii] == vm0[ii]);
                                } else {
                                    assert(valid_moves@[valid_moves@.len() - 1] == position);
                                    assert(position == (GridPosition {
                                        x: qx as i16,
                                        y: qy as i16,
                                    }));
                                }
                            }
                        }
                    }
                }
                x = x + 1;
            }
            y = y + 1;
        }
        valid_moves
    }

    /// Verify if a player can play with the actual board.
    pub fn can_play(&self, player_piece: Piece) -> (r: bool)
        requires
            self.wf(),
            player_piece != Piece::EMPTY,
        ensures
            r == can_play_spec(self@, player_piece),
    {
        let moves = self.get_valid_moves(player_piece);
        let r = moves.len() > 0;
        proof {
            if moves@.len() > 0 {
                assert(valid_move(self@, moves@[0].x as int, moves@[0].y as int, player_piece));
            } else {
                if can_play_spec(self@, player_piece) {
                    let (qx, qy) = choose|qx: int, qy: int|
                        valid_move(self@, qx, qy, player_piece);
                    assert(moves@.contains(GridPosition { x: qx as i16, y: qy as i16 }));
                    assert(false);
                }
            }
        }
        r
    }

    /// Verify if the board cannot change any more, i.e. the game is over:
    /// neither side has a legal move.
    pub fn is_finish(&self) -> (r: bool)
        requires
            self.wf(),
        ensures
            r == finished(self@),
    {
        !self.can_play(Piece::BLACK) && !self.can_play(Piece::WHITE)
    }

    /// Verify if the board is full (no empty cell remains). A full board has
    /// no legal moves, but a board without legal moves need not be full.
    #[verifier::loop_isolation(false)]
    pub fn is_full(&self) -> (r: bool)
        requires
            self.wf(),
        ensures
            r == full(self@),
    {
        let rows = self.rows;
        let cols = self.cols;
        let mut y: usize = 0;
        while y < rows
            invariant
                y <= rows,
                forall|qx: int, qy: int|
                    pos_in(self@, qx, qy) && qy < y ==> #[trigger] cell(self@, qx, qy)
                        != Piece::EMPTY,
            decreases rows - y,
        {
            let mut x: usize = 0;
            while x < cols
                invariant
                    x <= cols,
                    forall|qx: int, qy: int|
                        pos_in(self@, qx, qy) && (qy < y || (qy == y && qx < x))
                            ==> #[trigger] cell(self@, qx, qy) != Piece::EMPTY,
                decreases cols - x,
            {
                let position = GridPosition { x: x as i16, y: y as i16 };
                if self.is_empty(position) {
                    return false;
                }
                x = x + 1;
            }
            y = y + 1;
        }
        true
    }

    /// Compute the score of a player: how many cells hold the player's
    /// piece.
    #[verifier::loop_isolation(false)]
    pub fn score(&self, player: Player) -> (r: u8)
        requires
            self.wf(),
            total_cells(self@) <= 255,
        ensures
            r as nat == count_cells(self@, player.piece),
    {
        let color = player.piece;
        let rows = self.rows;
        let cols = self.cols;
        let mut score: u8 = 0;
        let mut y: usize = 0;
        proof {
            lemma_count_cells_le(self@, color);
        }
        while y < rows
            invariant
                y <= rows,
                score as nat == count_cells(self@.take(y as int), color),
            decreases rows - y,
        {
            proof {
                lemma_count_cells_take_le(self@, color, y as int);
                lemma_count_cells_take_step(self@, color, y as int);
            }
            let mut x: usize = 0;
            while x < cols
                invariant
                    x <= cols,
                    score as nat == count_cells(self@.take(y as int), color) + count_in_row(
                        self@[y as int].take(x as int),
                        color,
                    ),
                decreases cols - x,
            {
                proof {
                    lemma_count_cells_take_le(self@, color, y as int + 1);
                    lemma_count_cells_take_step(self@, color, y as int);
                    lemma_count_in_row_take_le(self@[y as int], color, x as int + 1);
                    lemma_count_in_row_take_step(self@[y as int], color, x as int);
                }
                let position = GridPosition { x: x as i16, y: y as i16 };
                if self.get(position) == color {
                    score = score + 1;
                }
                x = x + 1;
            }
            proof {
                assert(self@[y as int].take(cols as int) =~= self@[y as int]);
                lemma_count_cells_take_step(self@, color, y as int);
            }
            y = y + 1;
        }
        proof {
            assert(self@.take(rows as int) =~= self@);
        }
        score
    }

    /// Initialize the board for a new game: seed the four center cells, two
    /// of each color, diagonally opposed, leaving every other cell as it is.
    pub fn init(&mut self)
        requires
            old(self).wf(),
            old(self)@.len() >= 2,
            old(self)@[0].len() >= 2,
        ensures
            final(self).wf(),
            final(self)@.len() == old(self)@.len(),
            forall|r: int| 0 <= r < old(self)@.len() ==> (#[trigger] final(self)@[r]).len()
                == old(self)@[r].len(),
            forall|x2: int, y2: int|
                pos_in(old(self)@, x2, y2) ==> #[trigger] cell(final(self)@, x2, y2) == (if
                in_center4(old(self)@.len() as int, old(self)@[0].len() as int, x2, y2) {
                    initial_cell(old(self)@.len() as int, old(self)@[0].len() as int, x2, y2)
                } else {
                    cell(old(self)@, x2, y2)
                }),
    {
        let mid_x = self.cols / 2 - 1;
        let mid_y = self.rows / 2 - 1;
        self.set(GridPosition { x: mid_x as i16, y: (mid_y + 1) as i16 }, Piece::BLACK);
        self.set(GridPosition { x: (mid_x + 1) as i16, y: mid_y as i16 }, Piece::BLACK);
        self.set(GridPosition { x: mid_x as i16, y: mid_y as i16 }, Piece::WHITE);
        self.set(GridPosition { x: (mid_x + 1) as i16, y: (mid_y + 1) as i16 }, Piece::WHITE);
    }

    /// Reset the content of the board: clear every cell, then seed the four
    /// center cells for a new game.
    #[verifier::loop_isolation(false)]
    pub fn reset(&mut self)
        requires
            old(self).wf(),
            old(self)@.len() >= 2,
            old(self)@[0].len() >= 2,
        ensures
            final(self).wf(),
            final(self)@.len() == old(self)@.len(),
            forall|r: int| 0 <= r < old(self)@.len() ==> (#[trigger] final(self)@[r]).len()
                == old(self)@[r].len(),
            forall|x2: int, y2: int|
                pos_in(old(self)@, x2, y2) ==> #[trigger] cell(final(self)@, x2, y2)
                    == initial_cell(old(self)@.len() as int, old(self)@[0].len() as int, x2, y2),
    {
        let ghost b0 = self@;
        let rows = self.rows;
        let cols = self.cols;
        let mut y: usize = 0;
        while y < rows
            invariant
                y <= rows,
                self.wf(),
                self@.len() == b0.len(),
                forall|r: int| 0 <= r < b0.len() ==> (#[trigger] self@[r]).len() == b0[r].len(),
                forall|qx: int, qy: int|
                    pos_in(b0, qx, qy) && qy < y ==> #[trigger] cell(self@, qx, qy)
                        == Piece::EMPTY,
                forall|qx: int, qy: int|
                    pos_in(b0, qx, qy) && qy >= y ==> #[trigger] cell(self@, qx, qy) == cell(
                        b0,
                        qx,
                        qy,
                    ),
            decreases rows - y,
        {
            let mut x: usize = 0;
            while x < cols
                invariant
                    x <= cols,
                    self.wf(),
                    self@.len() == b0.len(),
                    forall|r: int| 0 <= r < b0.len() ==> (#[trigger] self@[r]).len()
                        == b0[r].len(),
                    forall|qx: int, qy: int|
                        pos_in(b0, qx, qy) && (qy < y || (qy == y && qx < x)) ==> #[trigger] cell(
                            self@,
                            qx,
                            qy,
                        ) == Piece::EMPTY,
                    forall|qx: int, qy: int|
                        pos_in(b0, qx, qy) && (qy > y || (qy == y && qx >= x)) ==> #[trigger] cell(
                            self@,
                            qx,
                            qy,
                        ) == cell(b0, qx, qy),
                decreases cols - x,
            {
                self.set(GridPosition { x: x as i16, y: y as i16 }, Piece::EMPTY);
                x = x + 1;
            }
            y = y + 1;
        }
        self.init();
    }

    /// Verify if the case is empty.
    pub fn is_empty(&self, position: GridPosition) -> (r: bool)
        requires
            self.wf(),
            pos_in(self@, position.x as int, position.y as int),
        ensures
            r == (cell(self@, position.x as int, position.y as int) == Piece::EMPTY),
    {
        self.get(position) == Piece::EMPTY
    }
}

impl Default for Board {
    /// A new board of the default dimensions, seeded for a standard game.
    fn default() -> (r: Self)
        ensures
            r.wf(),
            r@.len() == GRID_ROWS,
            forall|y: int| 0 <= y < GRID_ROWS ==> (#[trigger] r@[y]).len() == GRID_COLS,
            forall|x2: int, y2: int|
                pos_in(r@, x2, y2) ==> #[trigger] cell(r@, x2, y2) == initial_cell(
                    GRID_ROWS as int,
                    GRID_COLS as int,
                    x2,
                    y2,
                ),
    {
        let mut board = Board::new();
        board.init();
        board
    }
}

} // verus!
