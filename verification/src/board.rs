use vstd::prelude::*;
use crate::piece::TetrisPos;

verus! {

/// Whether row `y` of a grid `cols` cells wide has no empty cell.
pub open spec fn row_full(cells: Seq<u8>, cols: int, y: int) -> bool {
    forall|x: int| 0 <= x < cols ==> #[trigger] cells[y * cols + x] != 0
}

/// The full rows among the first `n` rows, from the bottom up.
pub open spec fn full_rows_below(cells: Seq<u8>, cols: int, n: int) -> Seq<u32>
    decreases n,
{
    if n <= 0 {
        seq![]
    } else if row_full(cells, cols, n - 1) {
        full_rows_below(cells, cols, n - 1).push((n - 1) as u32)
    } else {
        full_rows_below(cells, cols, n - 1)
    }
}

/// The rows in `lo..hi` that are not full, from the bottom up.
pub open spec fn kept_rows(cells: Seq<u8>, cols: int, lo: int, hi: int) -> Seq<int>
    decreases hi - lo,
{
    if lo >= hi {
        seq![]
    } else if row_full(cells, cols, lo) {
        kept_rows(cells, cols, lo + 1, hi)
    } else {
        seq![lo] + kept_rows(cells, cols, lo + 1, hi)
    }
}

/// A grid with the rows from `y` up moved down by one: every row from `y`
/// to the second-highest takes the contents of the row above it, and the top
/// row keeps its contents.
pub open spec fn shift_down(g: Seq<u8>, cols: int, rows: int, y: int) -> Seq<u8> {
    Seq::new(
        g.len(),
        |i: int|
            if y * cols <= i < (rows - 1) * cols {
                g[i + cols]
            } else {
                g[i]
            },
    )
}

/// The row of `cells` that row `r` of the grid shows once every full row
/// from `b` up has been removed: rows below `b` stay; above them come the
/// kept rows from `b` up in order, then copies of the top row.
pub open spec fn source_row(cells: Seq<u8>, cols: int, rows: int, b: int, r: int) -> int {
    let kept = kept_rows(cells, cols, b, rows);
    if r < b {
        r
    } else if r - b < kept.len() {
        kept[r - b]
    } else {
        rows - 1
    }
}

/// Grid `g` is `cells` with every full row from `b` up removed.
pub open spec fn cleared_from(cells: Seq<u8>, g: Seq<u8>, cols: int, rows: int, b: int) -> bool {
    forall|r: int, x: int|
        0 <= r < rows && 0 <= x < cols ==> #[trigger] g[r * cols + x] == cells[source_row(
            cells,
            cols,
            rows,
            b,
            r,
        ) * cols + x]
}

proof fn lemma_cell_in_grid(r: int, x: int, cols: int, rows: int)
    requires
        0 <= r < rows,
        0 <= x < cols,
    ensures
        0 <= r * cols + x < rows * cols,
        r * cols + x < (r + 1) * cols,
        r * cols <= r * cols + x,
{
    assert(0 <= r * cols + x < rows * cols) by (nonlinear_arith)
        requires
            0 <= r < rows,
            0 <= x < cols,
    ;
    assert((r + 1) * cols == r * cols + cols) by (nonlinear_arith);
}

proof fn lemma_row_order(r: int, x: int, y: int, cols: int)
    requires
        0 <= x < cols,
    ensures
        (y * cols <= r * cols + x) <==> (y <= r),
        (r * cols + x < y * cols) <==> (r < y),
{
    assert((y * cols <= r * cols + x) <==> (y <= r)) by (nonlinear_arith)
        requires
            0 <= x < cols,
    ;
    assert((r * cols + x < y * cols) <==> (r < y)) by (nonlinear_arith)
        requires
            0 <= x < cols,
    ;
}

proof fn lemma_next_row(r: int, cols: int)
    ensures
        (r + 1) * cols == r * cols + cols,
        (r - 1) * cols == r * cols - cols,
{
    assert((r + 1) * cols == r * cols + cols) by (nonlinear_arith);
    assert((r - 1) * cols == r * cols - cols) by (nonlinear_arith);
}

proof fn lemma_mul_mono(a: int, b: int, cols: int)
    requires
        a <= b,
        0 <= cols,
    ensures
        a * cols <= b * cols,
{
    assert(a * cols <= b * cols) by (nonlinear_arith)
        requires
            a <= b,
            0 <= cols,
    ;
}

/// The kept rows of `lo..hi` lie in `lo..hi`, rise strictly, are not full,
/// and are all of `lo..hi` when there are `hi - lo` of them.
proof fn lemma_kept_rows(cells: Seq<u8>, cols: int, lo: int, hi: int)
    requires
        lo <= hi,
    ensures
        kept_rows(cells, cols, lo, hi).len() <= hi - lo,
        forall|i: int|
            0 <= i < kept_rows(cells, cols, lo, hi).len() ==> lo <= #[trigger] kept_rows(
                cells,
                cols,
                lo,
                hi,
            )[i] < hi && !row_full(cells, cols, kept_rows(cells, cols, lo, hi)[i]),
        kept_rows(cells, cols, lo, hi).len() == hi - lo ==> forall|i: int|
            0 <= i < hi - lo ==> #[trigger] kept_rows(cells, cols, lo, hi)[i] == lo + i,
        forall|i: int, j: int|
            0 <= i < j < kept_rows(cells, cols, lo, hi).len() ==> #[trigger] kept_rows(
                cells,
                cols,
                lo,
                hi,
            )[i] < #[trigger] kept_rows(cells, cols, lo, hi)[j],
    decreases hi - lo,
{
    if lo < hi {
        lemma_kept_rows(cells, cols, lo + 1, hi);
        let rest = kept_rows(cells, cols, lo + 1, hi);
        if !row_full(cells, cols, lo) {
            let k = kept_rows(cells, cols, lo, hi);
            assert(k == seq![lo] + rest);
            assert forall|i: int| 0 <= i < k.len() implies lo <= #[trigger] k[i] < hi && !row_full(
                cells,
                cols,
                k[i],
            ) by {
                if i > 0 {
                    assert(k[i] == rest[i - 1]);
                }
            }
            assert forall|i: int, j: int| 0 <= i < j < k.len() implies #[trigger] k[i] < #[trigger] k[j] by {
                assert(k[j] == rest[j - 1]);
                if i > 0 {
                    assert(k[i] == rest[i - 1]);
                }
            }
            if k.len() == hi - lo {
                assert forall|i: int| 0 <= i < hi - lo implies #[trigger] k[i] == lo + i by {
                    if i > 0 {
                        assert(k[i] == rest[i - 1]);
                    }
                }
            }
        }
    }
}

/// Removing the full rows from `y + 1` up also removes those from `y` up,
/// where row `y` is not full.
proof fn lemma_skip_kept_row(cells: Seq<u8>, g: Seq<u8>, cols: int, rows: int, y: int)
    requires
        0 <= y < rows,
        !row_full(cells, cols, y),
        cleared_from(cells, g, cols, rows, y + 1),
    ensures
        cleared_from(cells, g, cols, rows, y),
{
    let k1 = kept_rows(cells, cols, y + 1, rows);
    let k0 = kept_rows(cells, cols, y, rows);
    assert(k0 == seq![y] + k1);
    assert forall|r: int, x: int| 0 <= r < rows && 0 <= x < cols implies #[trigger] g[r * cols
        + x] == cells[source_row(cells, cols, rows, y, r) * cols + x] by {
        assert(g[r * cols + x] == cells[source_row(cells, cols, rows, y + 1, r) * cols + x]);
        if r > y && r - y < k0.len() {
            assert(k0[r - y] == k1[r - y - 1]);
        }
    }
}

/// Removing the full rows from `hi` up also removes those from `lo` up,
/// where no row of `lo..hi` is full.
proof fn lemma_skip_kept_rows(cells: Seq<u8>, g: Seq<u8>, cols: int, rows: int, lo: int, hi: int)
    requires
        0 <= lo <= hi <= rows,
        forall|z: int| lo <= z < hi ==> !row_full(cells, cols, z),
        cleared_from(cells, g, cols, rows, hi),
    ensures
        cleared_from(cells, g, cols, rows, lo),
    decreases hi - lo,
{
    if lo < hi {
        lemma_skip_kept_row(cells, g, cols, rows, hi - 1);
        lemma_skip_kept_rows(cells, g, cols, rows, lo, hi - 1);
    }
}

/// Shifting down the rows above a full row `y` removes it.
proof fn lemma_remove_full_row(cells: Seq<u8>, g: Seq<u8>, cols: int, rows: int, y: int)
    requires
        0 <= y < rows,
        0 < cols,
        g.len() == rows * cols,
        row_full(cells, cols, y),
        cleared_from(cells, g, cols, rows, y + 1),
    ensures
        cleared_from(cells, shift_down(g, cols, rows, y), cols, rows, y),
{
    let g2 = shift_down(g, cols, rows, y);
    let k1 = kept_rows(cells, cols, y + 1, rows);
    let k0 = kept_rows(cells, cols, y, rows);
    assert(k0 == k1);
    lemma_kept_rows(cells, cols, y + 1, rows);
    assert forall|r: int, x: int| 0 <= r < rows && 0 <= x < cols implies #[trigger] g2[r * cols
        + x] == cells[source_row(cells, cols, rows, y, r) * cols + x] by {
        lemma_cell_in_grid(r, x, cols, rows);
        lemma_row_order(r, x, y, cols);
        lemma_row_order(r, x, rows - 1, cols);
        lemma_next_row(r, cols);
        if y <= r < rows - 1 {
            assert(g2[r * cols + x] == g[(r + 1) * cols + x]);
            assert(g[(r + 1) * cols + x] == cells[source_row(cells, cols, rows, y + 1, r + 1) * cols
                + x]);
        } else {
            assert(g2[r * cols + x] == g[r * cols + x]);
            assert(g[r * cols + x] == cells[source_row(cells, cols, rows, y + 1, r) * cols + x]);
            if r == rows - 1 && r >= y + 1 && r - (y + 1) < k1.len() {
                assert(k1.len() == rows - (y + 1));
                assert(k1[r - (y + 1)] == y + 1 + (r - (y + 1)));
            }
        }
    }
}

/// The full rows below `n` rise strictly, are all below `n`, and are exactly
/// the full rows below `n`.
proof fn lemma_full_rows(cells: Seq<u8>, cols: int, n: int)
    requires
        0 <= n <= u32::MAX + 1,
    ensures
        full_rows_below(cells, cols, n).len() <= n,
        forall|k: int|
            0 <= k < full_rows_below(cells, cols, n).len() ==> #[trigger] full_rows_below(
                cells,
                cols,
                n,
            )[k] < n && row_full(cells, cols, full_rows_below(cells, cols, n)[k] as int),
        forall|k1: int, k2: int|
            0 <= k1 < k2 < full_rows_below(cells, cols, n).len() ==> #[trigger] full_rows_below(
                cells,
                cols,
                n,
            )[k1] < #[trigger] full_rows_below(cells, cols, n)[k2],
        forall|z: int|
            0 <= z < n && row_full(cells, cols, z) ==> exists|k: int|
                0 <= k < full_rows_below(cells, cols, n).len() && #[trigger] full_rows_below(
                    cells,
                    cols,
                    n,
                )[k] == z,
    decreases n,
{
    if n > 0 {
        lemma_full_rows(cells, cols, n - 1);
        let prev = full_rows_below(cells, cols, n - 1);
        let cur = full_rows_below(cells, cols, n);
        assert forall|z: int| 0 <= z < n && row_full(cells, cols, z) implies exists|k: int|
            0 <= k < cur.len() && #[trigger] cur[k] == z by {
            if z == n - 1 {
                assert(cur[cur.len() - 1] == z);
            } else {
                let k = choose|k: int| 0 <= k < prev.len() && #[trigger] prev[k] == z;
                assert(cur[k] == z);
            }
        }
    }
}

/// The well: which cells are occupied, row by row from the bottom, how many
/// columns it has, and the points scored so far.
pub struct GameState {
    occupied: Vec<u8>,
    cols: u32,
    points: usize,
}

impl GameState {
    /// The cells of the well, row by row from the bottom; 1 is occupied, 0 empty.
    pub closed spec fn cells(&self) -> Seq<u8> {
        self.occupied@
    }

    /// The number of columns.
    pub closed spec fn width(&self) -> u32 {
        self.cols
    }

    /// The points scored so far.
    pub closed spec fn score(&self) -> usize {
        self.points
    }

    /// The number of rows.
    pub open spec fn height(&self) -> int {
        if self.width() == 0 {
            0
        } else {
            self.cells().len() as int / self.width() as int
        }
    }

    /// The cell at column `x`, row `y`.
    pub open spec fn cell(&self, x: int, y: int) -> u8 {
        self.cells()[y * self.width() + x]
    }

    /// What every well built by this module satisfies: at most `u32::MAX`
    /// cells, whole rows, and every cell 0 or 1.
    #[verifier::type_invariant]
    pub open spec fn wf(&self) -> bool {
        &&& self.cells().len() <= u32::MAX
        &&& self.width() == 0 ==> self.cells().len() == 0
        &&& self.width() > 0 ==> self.cells().len() == self.height() * self.width()
        &&& forall|i: int| 0 <= i < self.cells().len() ==> #[trigger] self.cells()[i] <= 1
    }

    /// The index in `cells()` of a block at `pos`, both coordinates taken as
    /// `u32`.
    pub open spec fn block_index(&self, pos: TetrisPos) -> int {
        (pos.1 as u32) * self.width() + (pos.0 as u32)
    }

    /// Whether the cell index of `pos` can be computed without overflow and
    /// lies in the well.
    pub open spec fn block_index_ok(&self, pos: TetrisPos) -> bool {
        &&& (pos.1 as u32) * self.width() <= u32::MAX
        &&& self.block_index(pos) < self.cells().len()
    }

    /// The index of the cell below `pos`, for a block above the bottom row.
    pub open spec fn below_index(&self, pos: TetrisPos) -> int {
        ((pos.1 as u32) - 1) * self.width() + (pos.0 as u32)
    }

    /// Whether the cell below `pos` can be looked up, where `pos` is not on
    /// the bottom row.
    pub open spec fn below_index_ok(&self, pos: TetrisPos) -> bool {
        &&& ((pos.1 as u32) - 1) * self.width() <= u32::MAX
        &&& self.below_index(pos) < self.cells().len()
    }

    /// Whether a block at `pos` has to come to rest: it is on the bottom row
    /// or the cell below it is occupied.
    pub open spec fn rests(&self, pos: TetrisPos) -> bool {
        pos.1 == 0 || self.cells()[self.below_index(pos)] == 1
    }

    /// The full rows, from the bottom up.
    pub open spec fn full_rows(&self) -> Seq<u32> {
        full_rows_below(self.cells(), self.width() as int, self.height())
    }

    /// The rows that are not full, from the bottom up.
    pub open spec fn kept(&self) -> Seq<int> {
        kept_rows(self.cells(), self.width() as int, 0, self.height())
    }

    /// The row whose contents row `r` shows after `clear_lines`: the kept
    /// rows in order, then copies of the top row.
    pub open spec fn cleared_source(&self, r: int) -> int {
        if r < self.kept().len() {
            self.kept()[r]
        } else {
            self.height() - 1
        }
    }

    /// `after` is this well with its full rows cleared: as wide, as many
    /// cells, and each row `r` showing row `cleared_source(r)` of this well.
    pub open spec fn clears_to(&self, after: GameState) -> bool {
        &&& after.width() == self.width()
        &&& after.cells().len() == self.cells().len()
        &&& forall|r: int, x: int|
            0 <= r < self.height() && 0 <= x < self.width()
                ==> #[trigger] after.cells()[r * self.width() + x]
                == self.cells()[self.cleared_source(r) * self.width() + x]
    }

    /// The full rows, from the bottom up.
    #[verifier::spinoff_prover]
    pub fn full_lines(&self) -> (lines: Vec<u32>)
        requires
            self.width() > 0,
        ensures
            lines@ == self.full_rows(),
    {
        proof {
            use_type_invariant(self);
        }
        let rows = self.occupied.len() as u32 / self.cols;
        let ghost cols = self.cols as int;
        let ghost cells = self.occupied@;

        let mut full_lines: Vec<u32> = Vec::new();
        for y in 0..rows
            invariant
                rows == self.height(),
                cols == self.width(),
                cells == self.cells(),
                self.wf(),
                cols > 0,
                full_lines@ == full_rows_below(cells, cols, y as int),
        {
            let mut is_full = true;
            let mut x: u32 = 0;
            while x < self.cols && is_full
                invariant
                    0 <= y < rows,
                    rows == self.height(),
                    cols == self.width(),
                    cells == self.cells(),
                    self.wf(),
                    cols > 0,
                    x <= cols,
                    forall|x2: int| 0 <= x2 < x ==> #[trigger] cells[y * cols + x2] != 0,
                    !is_full ==> x < cols && cells[y * cols + x] == 0,
                decreases cols - x + (if is_full { 1int } else { 0 }),
            {
                proof {
                    lemma_cell_in_grid(y as int, x as int, cols, rows as int);
                }
                if self.occupied[(y * self.cols + x) as usize] == 0 {
                    is_full = false;
                } else {
                    x = x + 1;
                }
            }
            assert(is_full == row_full(cells, cols, y as int));
            if is_full {
                full_lines.push(y);
            }
        }
        full_lines
    }

    /// Removes every full row: the rows above each full row move down by one,
    /// and the top row keeps its contents.
    #[verifier::spinoff_prover]
    pub fn clear_lines(&mut self)
        requires
            old(self).width() > 0,
        ensures
            final(self).score() == old(self).score(),
            old(self).clears_to(*final(self)),
    {
        let rows = self.occupied.len() as u32 / self.cols;
        let ghost cols = self.cols as int;
        let ghost cells = self.occupied@;
        proof {
            use_type_invariant(&*self);
        }
        let full_lines = self.full_lines();
        proof {
            lemma_full_rows(cells, cols, rows as int);
        }
        let mut occupied: Vec<u8> = Vec::new();
        proof {
            lemma_empty_well_is_valid(self.cols as int);
        }
        std::mem::swap(&mut occupied, &mut self.occupied);

        let mut k = full_lines.len();
        while k > 0
            invariant
                0 <= k <= full_lines@.len(),
                full_lines@ == full_rows_below(cells, cols, rows as int),
                rows == old(self).height(),
                cols == self.width(),
                cols == old(self).width(),
                cols > 0,
                cells == old(self).cells(),
                self.points == old(self).points,
                occupied@.len() == cells.len(),
                cells.len() == rows * cols,
                cells.len() <= u32::MAX,
                forall|i: int| 0 <= i < occupied@.len() ==> #[trigger] occupied@[i] <= 1,
                cleared_from(
                    cells,
                    occupied@,
                    cols,
                    rows as int,
                    if k == full_lines@.len() {
                        rows as int
                    } else {
                        full_lines@[k as int] as int
                    },
                ),
            decreases k,
        {
            let ghost b: int = if k == full_lines@.len() {
                rows as int
            } else {
                full_lines@[k as int] as int
            };
            k = k - 1;
            let y_line = full_lines[k];
            proof {
                lemma_full_rows(cells, cols, rows as int);
                assert forall|z: int| y_line < z < b implies !row_full(cells, cols, z) by {
                    if row_full(cells, cols, z) {
                        let k2 = choose|k2: int|
                            0 <= k2 < full_lines@.len() && #[trigger] full_lines@[k2] == z;
                        if k2 <= k {
                            if k2 < k {
                                assert(full_lines@[k2] < full_lines@[k as int]);
                            }
                        } else if k2 == k + 1 {
                        } else {
                            assert(full_lines@[k + 1] < full_lines@[k2]);
                        }
                    }
                }
                lemma_skip_kept_rows(cells, occupied@, cols, rows as int, y_line + 1, b);
            }
            let ghost g = occupied@;

            let mut y_up = y_line + 1;
            while y_up < rows
                invariant
                    y_line < rows,
                    y_line + 1 <= y_up <= rows,
                    cols == self.width(),
                    cols > 0,
                    g.len() == rows * cols,
                    g.len() <= u32::MAX,
                    occupied@.len() == g.len(),
                    self.points == old(self).points,
                    forall|i: int| 0 <= i < g.len() ==> #[trigger] g[i] <= 1,
                    forall|i: int|
                        0 <= i < g.len() ==> #[trigger] occupied@[i] == (if y_line * cols <= i
                            < (y_up - 1) * cols {
                            g[i + cols]
                        } else {
                            g[i]
                        }),
                decreases rows - y_up,
            {
                let mut x: u32 = 0;
                while x < self.cols
                    invariant
                        y_line < rows,
                        y_line + 1 <= y_up < rows,
                        0 <= x <= cols,
                        cols == self.width(),
                        cols > 0,
                        g.len() == rows * cols,
                        g.len() <= u32::MAX,
                        occupied@.len() == g.len(),
                        self.points == old(self).points,
                        forall|i: int| 0 <= i < g.len() ==> #[trigger] g[i] <= 1,
                        forall|i: int|
                            0 <= i < g.len() ==> #[trigger] occupied@[i] == (if y_line * cols
                                <= i < (y_up - 1) * cols + x {
                                g[i + cols]
                            } else {
                                g[i]
                            }),
                    decreases cols - x,
                {
                    proof {
                        lemma_cell_in_grid(y_up as int, x as int, cols, rows as int);
                        lemma_next_row(y_up - 1, cols);
                        lemma_mul_mono(y_line as int, y_up - 1, cols);
                    }
                    let src = occupied[(y_up * self.cols + x) as usize];
                    occupied.set(((y_up - 1) * self.cols + x) as usize, src);
                    x = x + 1;
                }
                proof {
                    lemma_next_row(y_up - 1, cols);
                }
                y_up = y_up + 1;
            }
            proof {
                lemma_next_row(rows - 1, cols);
                assert forall|i: int| 0 <= i < occupied@.len() implies #[trigger] occupied@[i] <= 1 by {
                    if y_line * cols <= i < (rows - 1) * cols {
                        assert(g[i + cols] <= 1);
                    }
                }
                assert(occupied@ =~= shift_down(g, cols, rows as int, y_line as int));
                lemma_remove_full_row(cells, g, cols, rows as int, y_line as int);
            }
        }
        proof {
            lemma_full_rows(cells, cols, rows as int);
            let b: int = if full_lines@.len() == 0 {
                rows as int
            } else {
                full_lines@[0] as int
            };
            assert forall|z: int| 0 <= z < b implies !row_full(cells, cols, z) by {
                if row_full(cells, cols, z) {
                    let k2 = choose|k2: int|
                        0 <= k2 < full_lines@.len() && #[trigger] full_lines@[k2] == z;
                    if k2 > 0 {
                        assert(full_lines@[0] < full_lines@[k2]);
                    }
                }
            }
            lemma_skip_kept_rows(cells, occupied@, cols, rows as int, 0, b);
        }
        self.occupied = occupied;
    }

    /// An empty well of `rows` rows and `cols` columns, with no points.
    pub fn new(rows: u32, cols: u32) -> (state: Self)
        requires
            rows * cols <= u32::MAX,
        ensures
            state.width() == cols,
            state.score() == 0,
            state.cells().len() == rows * cols,
            forall|i: int| 0 <= i < state.cells().len() ==> #[trigger] state.cells()[i] == 0,
            cols > 0 ==> state.height() == rows,
    {
        let occupied: Vec<u8> = vec![0; (rows * cols) as usize];
        proof {
            if cols > 0 {
                vstd::arithmetic::div_mod::lemma_div_by_multiple(rows as int, cols as int);
            }
            assert forall|i: int| 0 <= i < occupied@.len() implies #[trigger] occupied@[i] == 0 by {
                assert(cloned(0u8, occupied@[i]));
            }
        }
        GameState { occupied, cols, points: 0 }
    }

    /// The points scored so far.
    pub fn points(&self) -> (points: usize)
        ensures
            points == self.score(),
    {
        self.points
    }

    /// Marks the cell of `pos` occupied.
    pub fn place_block(&mut self, pos: TetrisPos)
        requires
            old(self).block_index_ok(pos),
        ensures
            final(self).cells() == old(self).cells().update(old(self).block_index(pos), 1),
            final(self).width() == old(self).width(),
            final(self).score() == old(self).score(),
    {
        proof {
            use_type_invariant(&*self);
        }
        let idx = (pos.1 as u32 * self.cols + pos.0 as u32) as usize;
        let mut occupied: Vec<u8> = Vec::new();
        proof {
            lemma_empty_well_is_valid(self.cols as int);
        }
        std::mem::swap(&mut occupied, &mut self.occupied);
        occupied.set(idx, 1);
        self.occupied = occupied;
    }

    /// Whether the cell of `pos` is occupied.
    pub fn colliding(&self, pos: TetrisPos) -> (hit: bool)
        requires
            self.block_index_ok(pos),
        ensures
            hit == (self.cells()[self.block_index(pos)] == 1),
    {
        proof {
            use_type_invariant(self);
        }
        self.occupied[(pos.1 as u32 * self.cols + pos.0 as u32) as usize] == 1
    }

    /// Whether a block at `pos` has to come to rest.
    pub fn should_rest(&self, pos: &TetrisPos) -> (rest: bool)
        requires
            pos.1 == 0 || self.below_index_ok(*pos),
        ensures
            rest == self.rests(*pos),
    {
        proof {
            use_type_invariant(self);
        }
        let y = pos.1;
        assert(y != 0 ==> y as u32 != 0) by (bit_vector);
        pos.1 == 0 || self.occupied[(((pos.1 as u32 - 1) * self.cols) + pos.0 as u32) as usize] == 1
    }
}

/// Points scored for each cleared row.
pub const POINTS_PER_CLEAR: usize = 100;

/// How many rows of `rows` lie below row `y`.
pub open spec fn count_below(rows: Seq<u32>, y: u32) -> nat
    decreases rows.len(),
{
    if rows.len() == 0 {
        0
    } else {
        count_below(rows.drop_last(), y) + if rows.last() < y {
            1nat
        } else {
            0nat
        }
    }
}

/// `a - b`, held to the range of `i32`.
pub open spec fn saturating_sub_spec(a: i32, b: i32) -> i32 {
    if a - b < i32::MIN {
        i32::MIN
    } else if a - b > i32::MAX {
        i32::MAX
    } else {
        (a - b) as i32
    }
}

/// `a - b`, held to the range of `i32`.
pub fn saturating_sub_i32(a: i32, b: i32) -> (d: i32)
    ensures
        d == saturating_sub_spec(a, b),
{
    let wide: i64 = a as i64 - b as i64;
    if wide < i32::MIN as i64 {
        i32::MIN
    } else if wide > i32::MAX as i64 {
        i32::MAX
    } else {
        wide as i32
    }
}

/// What becomes of a settled block when the full rows are cleared.
#[derive(Clone, Copy, Debug, PartialEq, Eq, Structural)]
pub enum TileFate {
    /// It lay in a full row and is removed.
    Despawn,
    /// It stays, at this position.
    Stay(TetrisPos),
}

/// The fate of a settled block at `pos`, given the full rows `full`: removed
/// if its row (taken as `u32`) is full, else moved down by the number of full
/// rows below it.
pub open spec fn tile_fate(full: Seq<u32>, pos: TetrisPos) -> TileFate {
    let y = pos.1 as u32;
    if full.contains(y) {
        TileFate::Despawn
    } else {
        let fall = count_below(full, y);
        if fall > 0 {
            TileFate::Stay(TetrisPos(pos.0, saturating_sub_spec(pos.1, fall as i32)))
        } else {
            TileFate::Stay(pos)
        }
    }
}

/// Clears the full rows once a piece has been placed: scores
/// `POINTS_PER_CLEAR` per full row, says for each settled block whether it
/// is removed or where it moves, and clears the rows in the well.
#[verifier::spinoff_prover]
pub fn clear_lines(state: &mut GameState, tiles: &Vec<TetrisPos>) -> (fates: Vec<TileFate>)
    requires
        old(state).width() > 0,
        old(state).score() + old(state).full_rows().len() * POINTS_PER_CLEAR <= usize::MAX,
    ensures
        final(state).score() == old(state).score() + old(state).full_rows().len() * POINTS_PER_CLEAR,
        old(state).clears_to(*final(state)),
        fates@.len() == tiles@.len(),
        forall|i: int|
            0 <= i < tiles@.len() ==> #[trigger] fates@[i] == tile_fate(
                old(state).full_rows(),
                tiles@[i],
            ),
{
    proof {
        use_type_invariant(&*state);
    }
    let crash_lines = state.full_lines();
    state.points = state.points + crash_lines.len() * POINTS_PER_CLEAR;

    let mut fates: Vec<TileFate> = Vec::new();
    for i in 0..tiles.len()
        invariant
            crash_lines@ == old(state).full_rows(),
            fates@.len() == i,
            forall|j: int|
                0 <= j < i ==> #[trigger] fates@[j] == tile_fate(crash_lines@, tiles@[j]),
    {
        let pos = tiles[i];
        let y = #[verifier::truncate] (pos.1 as u32);
        let mut in_crash = false;
        let mut should_fall: usize = 0;
        for k in 0..crash_lines.len()
            invariant
                in_crash == crash_lines@.take(k as int).contains(y),
                should_fall == count_below(crash_lines@.take(k as int), y),
                should_fall <= k,
                k <= crash_lines@.len(),
        {
            let ghost before = crash_lines@.take(k as int);
            let ghost after = crash_lines@.take(k + 1);
            assert(after.drop_last() =~= before);
            assert(after == before.push(crash_lines@[k as int]));
            assert(after.contains(y) == (before.contains(y) || crash_lines@[k as int] == y)) by {
                if after.contains(y) {
                    let j = choose|j: int| 0 <= j < after.len() && after[j] == y;
                    if j < k {
                        assert(before[j] == y);
                    }
                }
                if before.contains(y) {
                    let j = choose|j: int| 0 <= j < before.len() && before[j] == y;
                    assert(after[j] == y);
                }
                if crash_lines@[k as int] == y {
                    assert(after[k as int] == y);
                }
            }
            if crash_lines[k] == y {
                in_crash = true;
            }
            if crash_lines[k] < y {
                should_fall = should_fall + 1;
            }
        }
        assert(crash_lines@.take(crash_lines@.len() as int) =~= crash_lines@);
        if in_crash {
            fates.push(TileFate::Despawn);
        } else if should_fall > 0 {
            fates.push(TileFate::Stay(TetrisPos(pos.0, saturating_sub_i32(pos.1, #[verifier::truncate] (should_fall as i32)))));
        } else {
            fates.push(TileFate::Stay(pos));
        }
    }

    state.clear_lines();
    fates
}

/// A well with no cells is valid whatever its width.
proof fn lemma_empty_well_is_valid(w: int)
    ensures
        w > 0 ==> (0int / w) * w == 0,
{
    if w > 0 {
        assert((0int / w) * w == 0) by (nonlinear_arith)
            requires
                w > 0,
        ;
    }
}

/// The count of rows below `y` in a list whose rows all lie below `y` is
/// its length.
proof fn lemma_count_all_below(rows: Seq<u32>, y: u32)
    requires
        forall|k: int| 0 <= k < rows.len() ==> #[trigger] rows[k] < y,
    ensures
        count_below(rows, y) == rows.len(),
    decreases rows.len(),
{
    if rows.len() > 0 {
        lemma_count_all_below(rows.drop_last(), y);
    }
}

/// Among the full rows below `n`, those below `y` are the full rows below `y`.
proof fn lemma_count_full_below(cells: Seq<u8>, cols: int, n: int, y: int)
    requires
        0 <= y <= n <= u32::MAX + 1,
        y <= u32::MAX,
    ensures
        count_below(full_rows_below(cells, cols, n), y as u32) == full_rows_below(cells, cols, y).len(),
    decreases n,
{
    if n == y {
        lemma_full_rows(cells, cols, y);
        lemma_count_all_below(full_rows_below(cells, cols, y), y as u32);
    } else {
        lemma_count_full_below(cells, cols, n - 1, y);
        let prev = full_rows_below(cells, cols, n - 1);
        if row_full(cells, cols, n - 1) {
            assert(full_rows_below(cells, cols, n).drop_last() =~= prev);
        }
    }
}

/// The kept rows of `lo..hi + 1` are those of `lo..hi`, then `hi` if it is
/// not full.
proof fn lemma_kept_rows_extend(cells: Seq<u8>, cols: int, lo: int, hi: int)
    requires
        lo <= hi,
    ensures
        kept_rows(cells, cols, lo, hi + 1) == if row_full(cells, cols, hi) {
            kept_rows(cells, cols, lo, hi)
        } else {
            kept_rows(cells, cols, lo, hi).push(hi)
        },
    decreases hi - lo,
{
    if lo < hi {
        lemma_kept_rows_extend(cells, cols, lo + 1, hi);
        if !row_full(cells, cols, lo) {
            let a = kept_rows(cells, cols, lo + 1, hi);
            assert(seq![lo] + a.push(hi) =~= (seq![lo] + a).push(hi));
        }
    } else {
        assert(kept_rows(cells, cols, hi + 1, hi + 1) =~= Seq::<int>::empty());
        if !row_full(cells, cols, hi) {
            assert(seq![hi] + Seq::<int>::empty() =~= Seq::<int>::empty().push(hi));
        }
    }
}

/// Every row below `y` is either full or kept.
proof fn lemma_kept_and_full(cells: Seq<u8>, cols: int, y: int)
    requires
        0 <= y,
    ensures
        kept_rows(cells, cols, 0, y).len() + full_rows_below(cells, cols, y).len() == y,
    decreases y,
{
    if y > 0 {
        lemma_kept_and_full(cells, cols, y - 1);
        lemma_kept_rows_extend(cells, cols, 0, y - 1);
    }
}

/// The kept rows below `y` begin the kept rows below any `n >= y`.
proof fn lemma_kept_prefix(cells: Seq<u8>, cols: int, y: int, n: int)
    requires
        0 <= y <= n,
    ensures
        kept_rows(cells, cols, 0, y).len() <= kept_rows(cells, cols, 0, n).len(),
        forall|k: int|
            0 <= k < kept_rows(cells, cols, 0, y).len() ==> #[trigger] kept_rows(cells, cols, 0, n)[k]
                == kept_rows(cells, cols, 0, y)[k],
    decreases n - y,
{
    if y < n {
        lemma_kept_prefix(cells, cols, y, n - 1);
        lemma_kept_rows_extend(cells, cols, 0, n - 1);
    }
}

impl GameState {
    /// `full_lines` lists every full row once, from the bottom up, and no
    /// other row.
    pub proof fn lemma_full_lines_exact(&self)
        requires
            self.wf(),
            self.width() > 0,
        ensures
            forall|k1: int, k2: int|
                0 <= k1 < k2 < self.full_rows().len() ==> #[trigger] self.full_rows()[k1]
                    < #[trigger] self.full_rows()[k2],
            forall|k: int|
                0 <= k < self.full_rows().len() ==> #[trigger] self.full_rows()[k] < self.height()
                    && row_full(self.cells(), self.width() as int, self.full_rows()[k] as int),
            forall|y: int|
                0 <= y < self.height() && row_full(self.cells(), self.width() as int, y)
                    ==> #[trigger] self.full_rows().contains(y as u32),
    {
        lemma_full_rows(self.cells(), self.width() as int, self.height());
        assert forall|y: int|
            0 <= y < self.height() && row_full(self.cells(), self.width() as int, y)
                implies #[trigger] self.full_rows().contains(y as u32) by {
            let k = choose|k: int|
                0 <= k < self.full_rows().len() && #[trigger] self.full_rows()[k] == y;
        }
    }

    /// A block of a row that is not full keeps showing the same row when the
    /// full rows are cleared: it moves down by the number of full rows below
    /// it, onto the row that `clear_lines` fills with its old row.
    #[verifier::spinoff_prover]
    pub proof fn lemma_tile_follows_row(&self, pos: TetrisPos)
        requires
            self.wf(),
            self.width() > 0,
            0 <= pos.1 < self.height(),
            !row_full(self.cells(), self.width() as int, pos.1 as int),
        ensures
            ({
                let fall = full_rows_below(self.cells(), self.width() as int, pos.1 as int).len();
                &&& tile_fate(self.full_rows(), pos) == TileFate::Stay(
                    TetrisPos(pos.0, (pos.1 - fall) as i32),
                )
                &&& 0 <= pos.1 - fall
                &&& self.cleared_source(pos.1 - fall) == pos.1
            }),
    {
        let cells = self.cells();
        let cols = self.width() as int;
        let n = self.height();
        let y = pos.1 as int;
        let fall = full_rows_below(cells, cols, y).len();
        lemma_full_rows(cells, cols, n);
        lemma_count_full_below(cells, cols, n, y);
        lemma_kept_and_full(cells, cols, y);
        lemma_kept_rows_extend(cells, cols, 0, y);
        lemma_kept_prefix(cells, cols, y + 1, n);
        assert(pos.1 as u32 == y);
        assert(!self.full_rows().contains(pos.1 as u32)) by {
            if self.full_rows().contains(pos.1 as u32) {
                let k = choose|k: int| 0 <= k < self.full_rows().len() && self.full_rows()[k] == pos.1 as u32;
            }
        }
        assert(kept_rows(cells, cols, 0, y + 1)[y - fall] == y);
        assert(self.kept()[y - fall] == y);
    }

    /// Where no row is full, `clear_lines` leaves every row in place.
    pub proof fn lemma_clear_without_full_rows(&self)
        requires
            self.wf(),
            self.width() > 0,
            self.full_rows().len() == 0,
        ensures
            forall|r: int| 0 <= r < self.height() ==> #[trigger] self.cleared_source(r) == r,
    {
        let cells = self.cells();
        let cols = self.width() as int;
        let n = self.height();
        lemma_kept_and_full(cells, cols, n);
        lemma_kept_rows(cells, cols, 0, n);
    }

    /// A block placed on a cell is found there afterwards, and no other cell
    /// changes: what `colliding` reads back of what `place_block` wrote.
    pub proof fn lemma_placed_block_collides(before: GameState, after: GameState, pos: TetrisPos, other: int)
        requires
            before.block_index_ok(pos),
            after.cells() == before.cells().update(before.block_index(pos), 1),
            after.width() == before.width(),
            0 <= other < before.cells().len(),
            other != before.block_index(pos),
        ensures
            after.block_index_ok(pos),
            after.cells()[after.block_index(pos)] == 1,
            after.cells()[other] == before.cells()[other],
    {
    }
}

/// Whether `p` is a cell of the well.
pub open spec fn in_well_cell(state: GameState, p: TetrisPos) -> bool {
    0 <= p.0 < state.width() && 0 <= p.1 < state.height()
}

/// Whether `p` is at column `x`, row `y`.
pub open spec fn at_cell(p: TetrisPos, x: int, y: int) -> bool {
    p.0 == x && p.1 == y
}

/// The settled blocks `tiles` lie exactly on the occupied cells of `state`:
/// a cell of the well is occupied if and only if a block lies on it, and no
/// two blocks lie on one cell of the well. Blocks outside the well may lie
/// anywhere.
pub open spec fn tiles_match(state: GameState, tiles: Seq<TetrisPos>) -> bool {
    let w = state.width() as int;
    let h = state.height();
    &&& forall|x: int, y: int|
        0 <= x < w && 0 <= y < h ==> (#[trigger] state.cells()[y * w + x] == 1 <==> exists|i: int|
            0 <= i < tiles.len() && #[trigger] at_cell(tiles[i], x, y))
    &&& forall|i: int, j: int|
        0 <= i < j < tiles.len() && in_well_cell(state, tiles[i]) ==> #[trigger] tiles[i]
            != #[trigger] tiles[j]
}

/// Whether block `i` stays after a clear and comes to column `x`, row `y`.
pub open spec fn stays_at(fates: Seq<TileFate>, i: int, x: int, y: int) -> bool {
    fates[i] is Stay && at_cell(fates[i]->Stay_0, x, y)
}

/// The blocks that stay lie exactly on the occupied cells of `state`: a
/// cell of the well is occupied if and only if a block that stays comes to
/// it, and no two blocks that stay come to one cell of the well.
pub open spec fn stays_match(state: GameState, fates: Seq<TileFate>) -> bool {
    let w = state.width() as int;
    let h = state.height();
    &&& forall|x: int, y: int|
        0 <= x < w && 0 <= y < h ==> (#[trigger] state.cells()[y * w + x] == 1 <==> exists|i: int|
            0 <= i < fates.len() && #[trigger] stays_at(fates, i, x, y))
    &&& forall|i: int, j: int|
        0 <= i < j < fates.len() && fates[i] is Stay && in_well_cell(state, fates[i]->Stay_0)
            ==> #[trigger] fates[i] != #[trigger] fates[j]
}

impl GameState {
    /// After a clear, the blocks that stay still lie exactly on the occupied
    /// cells, and no row is full: where the settled blocks lay exactly on the
    /// occupied cells of a well whose top row is empty, the blocks that
    /// `clear_lines` keeps, at the places it gives them, lie exactly on the
    /// occupied cells of the cleared well. Blocks outside the well are only
    /// asked not to be moved into it.
    #[verifier::spinoff_prover]
    pub proof fn lemma_clear_keeps_tiles_on_cells(
        before: GameState,
        after: GameState,
        tiles: Seq<TetrisPos>,
        fates: Seq<TileFate>,
    )
        requires
            before.wf(),
            before.width() > 0,
            before.clears_to(after),
            fates.len() == tiles.len(),
            forall|i: int| 0 <= i < tiles.len() ==> #[trigger] fates[i] == tile_fate(before.full_rows(), tiles[i]),
            tiles_match(before, tiles),
            before.height() > 0 ==> forall|x: int|
                0 <= x < before.width() ==> #[trigger] before.cells()[(before.height() - 1)
                    * before.width() + x] == 0,
            forall|i: int|
                0 <= i < tiles.len() && !in_well_cell(before, tiles[i]) && (#[trigger] fates[i] is Stay)
                    ==> !in_well_cell(before, fates[i]->Stay_0),
        ensures
            after.width() == before.width(),
            after.height() == before.height(),
            after.full_rows().len() == 0,
            stays_match(after, fates),
    {
        let w = before.width() as int;
        let h = before.height();
        let cells = before.cells();
        before.lemma_full_lines_exact();
        lemma_kept_rows(cells, w, 0, h);
        vstd::arithmetic::div_mod::lemma_div_by_multiple(h, w);
        assert(after.height() == h);

        // each block of the well that stays comes from a row that is not full
        assert forall|i: int|
            0 <= i < fates.len() && in_well_cell(before, tiles[i]) && fates[i] is Stay implies {
            let y = tiles[i].1 as int;
            let fall = full_rows_below(cells, w, y).len();
            &&& !row_full(cells, w, y)
            &&& fates[i] == TileFate::Stay(TetrisPos(tiles[i].0, (y - fall) as i32))
            &&& 0 <= y - fall
            &&& before.cleared_source(y - fall) == y
        } by {
            let t = tiles[i];
            if row_full(cells, w, t.1 as int) {
                assert(before.full_rows().contains(t.1 as u32));
                assert(t.1 as u32 == t.1);
            }
            before.lemma_tile_follows_row(t);
        }

        // a block that stays in the well lies on an occupied cell of the cleared well
        assert forall|x: int, y: int, i: int|
            0 <= x < w && 0 <= y < h && 0 <= i < fates.len() && #[trigger] stays_at(fates, i, x, y)
            implies after.cells()[y * w + x] == 1 by {
            let t = tiles[i];
            assert(in_well_cell(before, t));
            let ty = t.1 as int;
            let fall = full_rows_below(cells, w, ty).len();
            assert(after.cells()[y * w + x] == cells[before.cleared_source(y) * w + x]);
            assert(at_cell(tiles[i], t.0 as int, ty));
            assert(cells[ty * w + t.0] == 1);
        }

        // an occupied cell of the cleared well holds a block that stays
        assert forall|x: int, y: int|
            0 <= x < w && 0 <= y < h && #[trigger] after.cells()[y * w + x] == 1 implies exists|i: int|
            0 <= i < fates.len() && #[trigger] stays_at(fates, i, x, y) by {
            let src = before.cleared_source(y);
            assert(after.cells()[y * w + x] == cells[src * w + x]);
            if y >= before.kept().len() {
                assert(cells[(h - 1) * w + x] == 0);
            } else {
                assert(0 <= src < h);
                assert(cells[src * w + x] == 1);
                let i = choose|i: int| 0 <= i < tiles.len() && #[trigger] at_cell(tiles[i], x, src);
                assert(in_well_cell(before, tiles[i]));
                assert(!row_full(cells, w, src));
                assert(!before.full_rows().contains(tiles[i].1 as u32)) by {
                    if before.full_rows().contains(tiles[i].1 as u32) {
                        let k = choose|k: int| 0 <= k < before.full_rows().len() && before.full_rows()[k] == tiles[i].1 as u32;
                        assert(row_full(cells, w, before.full_rows()[k] as int));
                    }
                }
                assert(fates[i] is Stay);
                let fall = full_rows_below(cells, w, src).len();
                assert(before.cleared_source(src - fall) == src);
                assert(before.kept()[src - fall] == before.kept()[y]);
                if src - fall < y {
                    assert(before.kept()[src - fall] < before.kept()[y]);
                } else if src - fall > y {
                    assert(before.kept()[y] < before.kept()[src - fall]);
                }
                assert(stays_at(fates, i, x, y));
            }
        }

        // no two blocks that stay share a cell of the well
        assert forall|i: int, j: int|
            0 <= i < j < fates.len() && fates[i] is Stay && in_well_cell(after, fates[i]->Stay_0)
            implies #[trigger] fates[i] != #[trigger] fates[j] by {
            if fates[i] == fates[j] {
                assert(in_well_cell(before, tiles[i]));
                assert(in_well_cell(before, tiles[j]));
                let yi = tiles[i].1 as int;
                let yj = tiles[j].1 as int;
                let ri = yi - full_rows_below(cells, w, yi).len();
                let rj = yj - full_rows_below(cells, w, yj).len();
                assert(ri == rj);
                assert(yi == yj);
                assert(tiles[i] == tiles[j]);
            }
        }

        // no row of the cleared well is full
        lemma_full_rows(after.cells(), w, h);
        if after.full_rows().len() > 0 {
            let r = after.full_rows()[0] as int;
            assert(row_full(after.cells(), w, r));
            let src = before.cleared_source(r);
            if r < before.kept().len() {
                assert(!row_full(cells, w, src));
                let x = choose|x: int| 0 <= x < w && !(#[trigger] cells[src * w + x] != 0);
                assert(after.cells()[r * w + x] == cells[src * w + x]);
            } else {
                assert(after.cells()[r * w + 0] == cells[(h - 1) * w + 0]);
            }
        }
    }
}

} // verus!
