//! The 8×8 board: placement checks, placing pieces and clearing full lines.
use vstd::prelude::*;
use crate::ratio::Ratio;
use crate::shape::{BlockColor, BlockShape};

verus! {

/// Cells on a side of the board.
pub const SIZE: usize = 8;

/// Whether `(x, y)` lies on the board.
pub open spec fn in_board(x: int, y: int) -> bool {
    0 <= x < 8 && 0 <= y < 8
}

/// Whether some cell of `s`, placed with its origin at `(ox, oy)`, lands on `(x, y)`.
pub open spec fn covers(s: Seq<(i32, i32)>, ox: int, oy: int, x: int, y: int) -> bool {
    exists|i: int| 0 <= i < s.len() && ox + s[i].0 == x && oy + s[i].1 == y
}

/// Search stage of an origin correction: 0 exact, 1 orthogonal, 2 diagonal, 3 ring.
pub open spec fn search_stage(dx: int, dy: int) -> int {
    if dx == 0 && dy == 0 {
        0
    } else if -1 <= dx <= 1 && -1 <= dy <= 1 {
        if dx == 0 || dy == 0 {
            1
        } else {
            2
        }
    } else {
        3
    }
}

/// Order of a correction within the orthogonal stage (up, down, left, right)
/// and within the diagonal stage (up-left, up-right, down-left, down-right).
pub open spec fn near_order(dx: int, dy: int) -> int {
    if dx == 0 && dy == -1 {
        0
    } else if dx == 0 && dy == 1 {
        1
    } else if dx == -1 && dy == 0 {
        2
    } else if dx == 1 && dy == 0 {
        3
    } else if dx == -1 && dy == -1 {
        0
    } else if dx == 1 && dy == -1 {
        1
    } else if dx == -1 && dy == 1 {
        2
    } else {
        3
    }
}

/// Whether the correction `(a, b)` is tried before `(c, d)`; the ring is
/// scanned row by row.
pub open spec fn tried_before(a: int, b: int, c: int, d: int) -> bool {
    let (p, q) = (search_stage(a, b), search_stage(c, d));
    p < q || (p == q && if p == 3 {
        b < d || (b == d && a < c)
    } else {
        near_order(a, b) < near_order(c, d)
    })
}

/// Whether the correction `(dx, dy)` is tried at all with tolerance `t`.
pub open spec fn in_search(dx: int, dy: int, t: int) -> bool {
    (-1 <= dx <= 1 && -1 <= dy <= 1) || (t > 1 && -t <= dx <= t && -t <= dy <= t)
}

/// Whether `v` lists, in increasing order, exactly the indices below 8 that satisfy `p`.
pub open spec fn lists_exactly(v: Seq<usize>, p: spec_fn(int) -> bool) -> bool {
    &&& forall|i: int, j: int| 0 <= i < j < v.len() ==> v[i] < v[j]
    &&& forall|i: int| 0 <= i < v.len() ==> v[i] < 8 && p(v[i] as int)
    &&& forall|k: int| 0 <= k < 8 && #[trigger] p(k) ==> v.contains(k as usize)
}

/// Appending keeps every element and adds the new one.
pub proof fn lemma_push_contains(v: Seq<usize>, e: usize)
    ensures
        v.push(e).contains(e),
        forall|k: usize| v.contains(k) ==> v.push(e).contains(k),
{
    assert(v.push(e)[v.len() as int] == e);
    assert forall|k: usize| v.contains(k) implies v.push(e).contains(k) by {
        let i = choose|i: int| 0 <= i < v.len() && v[i] == k;
        assert(v.push(e)[i] == k);
    }
}

/// The board; each cell is empty or holds the colour of the piece that filled it.
pub struct Grid {
    cells: Vec<Option<BlockColor>>,
}

impl Grid {
    pub closed spec fn wf(&self) -> bool {
        self.cells@.len() == 64
    }

    /// The content of the cell in column `x` and row `y`.
    pub closed spec fn cell(&self, x: int, y: int) -> Option<BlockColor> {
        self.cells@[y * 8 + x]
    }

    pub open spec fn occupied(&self, x: int, y: int) -> bool {
        self.cell(x, y) is Some
    }

    /// On the board and empty.
    pub open spec fn free(&self, x: int, y: int) -> bool {
        in_board(x, y) && !self.occupied(x, y)
    }

    /// Every cell of `s`, placed with its origin at `(ox, oy)`, is on the board and empty.
    pub open spec fn fits(&self, s: Seq<(i32, i32)>, ox: int, oy: int) -> bool {
        forall|i: int| 0 <= i < s.len() ==> self.free(ox + s[i].0, oy + s[i].1)
    }

    /// `fits` with the origin moved by `(dx, dy)`.
    pub open spec fn fits_shifted(&self, s: Seq<(i32, i32)>, ox: int, oy: int, dx: int, dy: int) -> bool {
        self.fits(s, ox + dx, oy + dy)
    }

    pub open spec fn row_full(&self, y: int) -> bool {
        forall|x: int| 0 <= x < 8 ==> self.occupied(x, y)
    }

    pub open spec fn col_full(&self, x: int) -> bool {
        forall|y: int| 0 <= y < 8 ==> self.occupied(x, y)
    }

    /// Occupied cells among the first `n` in row-major order.
    pub open spec fn count_occupied(&self, n: int) -> int
        decreases n,
    {
        if n <= 0 {
            0
        } else {
            self.count_occupied(n - 1) + if self.occupied((n - 1) % 8, (n - 1) / 8) {
                1int
            } else {
                0int
            }
        }
    }

    /// Empty cells among the first `n` of row `y`.
    pub open spec fn count_empty_in_row(&self, y: int, n: int) -> int
        decreases n,
    {
        if n <= 0 {
            0
        } else {
            self.count_empty_in_row(y, n - 1) + if self.occupied(n - 1, y) {
                0int
            } else {
                1int
            }
        }
    }

    /// Empty cells among the first `n` of column `x`.
    pub open spec fn count_empty_in_col(&self, x: int, n: int) -> int
        decreases n,
    {
        if n <= 0 {
            0
        } else {
            self.count_empty_in_col(x, n - 1) + if self.occupied(x, n - 1) {
                0int
            } else {
                1int
            }
        }
    }

    /// An empty board.
    pub fn new() -> (r: Self)
        ensures
            r.wf(),
            forall|x: int, y: int| in_board(x, y) ==> r.cell(x, y) is None,
    {
        let mut cells: Vec<Option<BlockColor>> = Vec::new();
        let mut i: usize = 0;
        while i < 64
            invariant
                i <= 64,
                cells@.len() == i,
                forall|k: int| 0 <= k < i ==> cells@[k] is None,
            decreases 64 - i,
        {
            cells.push(None);
            i += 1;
        }
        Grid { cells }
    }

    /// The content of the cell in column `x` and row `y`.
    pub fn get_cell(&self, x: usize, y: usize) -> (r: Option<BlockColor>)
        requires
            self.wf(),
            x < 8,
            y < 8,
        ensures
            r == self.cell(x as int, y as int),
    {
        self.cells[y * 8 + x]
    }

    /// Sets one cell, leaving the others as they are.
    pub fn set_cell(&mut self, x: usize, y: usize, v: Option<BlockColor>)
        requires
            old(self).wf(),
            x < 8,
            y < 8,
        ensures
            final(self).wf(),
            final(self).cell(x as int, y as int) == v,
            forall|a: int, b: int|
                in_board(a, b) && (a, b) != (x as int, y as int) ==> final(self).cell(a, b) == old(
                    self,
                ).cell(a, b),
    {
        self.cells.set(y * 8 + x, v);
        assert forall|a: int, b: int|
            in_board(a, b) && (a, b) != (x as int, y as int) implies self.cell(a, b) == old(
            self,
        ).cell(a, b) by {
            assert(a + 8 * b != x + 8 * y);
        }
    }

    /// Whether the piece fits with its origin at `(grid_x, grid_y)`: every cell
    /// on the board and empty.
    pub fn can_place_block(&self, block: &BlockShape, grid_x: i32, grid_y: i32) -> (r: bool)
        requires
            self.wf(),
        ensures
            r == self.fits(block.cells@, grid_x as int, grid_y as int),
    {
        self.cells_fit(&block.cells, grid_x, grid_y)
    }

    /// Whether the cells, placed with their origin at `(grid_x, grid_y)`, are
    /// all on the board and empty.
    pub fn cells_fit(&self, cells: &Vec<(i32, i32)>, grid_x: i32, grid_y: i32) -> (r: bool)
        requires
            self.wf(),
        ensures
            r == self.fits(cells@, grid_x as int, grid_y as int),
    {
        let mut i: usize = 0;
        while i < cells.len()
            invariant
                i <= cells@.len(),
                self.wf(),
                forall|k: int| 0 <= k < i ==> self.free(grid_x + cells@[k].0, grid_y + cells@[k].1),
            decreases cells@.len() - i,
        {
            let (dx, dy) = cells[i];
            let x: i64 = grid_x as i64 + dx as i64;
            let y: i64 = grid_y as i64 + dy as i64;
            if x < 0 || x >= 8 || y < 0 || y >= 8 {
                return false;
            }
            if self.cells[(y * 8 + x) as usize].is_some() {
                return false;
            }
            i += 1;
        }
        true
    }

    /// Looks for an origin where the piece fits near `(grid_x, grid_y)`: the
    /// exact origin, then up, down, left, right, then up-left, up-right,
    /// down-left, down-right, then (when `tolerance > 1`) the rest of the square
    /// of radius `tolerance`, row by row. Returns the first that fits, or
    /// `false` with the origin unchanged.
    pub fn can_place_block_with_tolerance(
        &self,
        block: &BlockShape,
        grid_x: i32,
        grid_y: i32,
        tolerance: i32,
    ) -> (r: (bool, i32, i32))
        requires
            self.wf(),
            i32::MIN <= grid_x - (if tolerance > 1 { tolerance as int } else { 1 }),
            grid_x + (if tolerance > 1 { tolerance as int } else { 1 }) <= i32::MAX,
            i32::MIN <= grid_y - (if tolerance > 1 { tolerance as int } else { 1 }),
            grid_y + (if tolerance > 1 { tolerance as int } else { 1 }) <= i32::MAX,
        ensures
            r.0 ==> {
                &&& in_search(r.1 - grid_x, r.2 - grid_y, tolerance as int)
                &&& self.fits(block.cells@, r.1 as int, r.2 as int)
                &&& forall|dx: int, dy: int|
                    #[trigger] in_search(dx, dy, tolerance as int) && tried_before(
                        dx,
                        dy,
                        r.1 - grid_x,
                        r.2 - grid_y,
                    ) ==> !self.fits(block.cells@, grid_x + dx, grid_y + dy)
            },
            !r.0 ==> {
                &&& r.1 == grid_x && r.2 == grid_y
                &&& forall|dx: int, dy: int| #[trigger]
                    in_search(dx, dy, tolerance as int) ==> !self.fits(
                        block.cells@,
                        grid_x + dx,
                        grid_y + dy,
                    )
            },
    {
        let s = Ghost(block.cells@);
        let t = Ghost(tolerance as int);
        let gx = grid_x;
        let gy = grid_y;
        if self.can_place_block(block, gx, gy) {
            return (true, gx, gy);
        }
        if self.can_place_block(block, gx, gy - 1) {
            return (true, gx, gy - 1);
        }
        if self.can_place_block(block, gx, gy + 1) {
            return (true, gx, gy + 1);
        }
        if self.can_place_block(block, gx - 1, gy) {
            return (true, gx - 1, gy);
        }
        if self.can_place_block(block, gx + 1, gy) {
            return (true, gx + 1, gy);
        }
        if self.can_place_block(block, gx - 1, gy - 1) {
            return (true, gx - 1, gy - 1);
        }
        if self.can_place_block(block, gx + 1, gy - 1) {
            return (true, gx + 1, gy - 1);
        }
        if self.can_place_block(block, gx - 1, gy + 1) {
            return (true, gx - 1, gy + 1);
        }
        if self.can_place_block(block, gx + 1, gy + 1) {
            return (true, gx + 1, gy + 1);
        }
        assert forall|dx: int, dy: int|
            -1 <= dx <= 1 && -1 <= dy <= 1 implies !#[trigger] self.fits_shifted(s@, gx as int, gy as int, dx, dy) by {
            assert(-1 <= dx <= 1 && -1 <= dy <= 1);
        }
        if tolerance > 1 {
            let tol: i64 = tolerance as i64;
            let mut dy: i64 = -tol;
            while dy <= tol
                invariant
                    self.wf(),
                    s@ == block.cells@,
                    t@ == tol,
                    tol == tolerance,
                    gx == grid_x,
                    gy == grid_y,
                    tolerance > 1,
                    -tol <= dy <= tol + 1,
                    i32::MIN <= gx - tol,
                    gx + tol <= i32::MAX,
                    i32::MIN <= gy - tol,
                    gy + tol <= i32::MAX,
                    forall|a: int, b: int|
                        -1 <= a <= 1 && -1 <= b <= 1 ==> !#[trigger] self.fits_shifted(s@, gx as int, gy as int, a, b),
                    forall|a: int, b: int|
                        -t@ <= a <= t@ && -t@ <= b < dy ==> !#[trigger] self.fits_shifted(s@, gx as int, gy as int, a, b),
                decreases tol + 1 - dy,
            {
                let mut dx: i64 = -tol;
                while dx <= tol
                    invariant
                        self.wf(),
                        s@ == block.cells@,
                        t@ == tol,
                        tol == tolerance,
                        gx == grid_x,
                        gy == grid_y,
                        tolerance > 1,
                        -tol <= dy <= tol,
                        -tol <= dx <= tol + 1,
                        i32::MIN <= gx - tol,
                        gx + tol <= i32::MAX,
                        i32::MIN <= gy - tol,
                        gy + tol <= i32::MAX,
                        forall|a: int, b: int|
                            -1 <= a <= 1 && -1 <= b <= 1 ==> !#[trigger] self.fits_shifted(s@, gx as int, gy as int, a, b),
                        forall|a: int, b: int|
                            -t@ <= a <= t@ && -t@ <= b < dy ==> !#[trigger] self.fits_shifted(s@, gx as int, gy as int, a, b),
                        forall|a: int| -t@ <= a < dx ==> !#[trigger] self.fits_shifted(s@, gx as int, gy as int, a, dy as int),
                    decreases tol + 1 - dx,
                {
                    if !(-1 <= dx && dx <= 1 && -1 <= dy && dy <= 1) {
                        let cx: i32 = (gx as i64 + dx) as i32;
                        let cy: i32 = (gy as i64 + dy) as i32;
                        if self.can_place_block(block, cx, cy) {
                            proof {
                                assert(cx - gx == dx && cy - gy == dy);
                                assert(self.fits_shifted(s@, gx as int, gy as int, dx as int, dy as int));
                                assert forall|a: int, b: int|
                                    #[trigger] in_search(a, b, tolerance as int) && tried_before(a, b, cx - gx, cy - gy)
                                    implies !self.fits(block.cells@, grid_x + a, grid_y + b) by {
                                    assert(search_stage(dx as int, dy as int) == 3);
                                    if search_stage(a, b) < 3 {
                                        assert(-1 <= a <= 1 && -1 <= b <= 1);
                                        assert(!self.fits_shifted(s@, gx as int, gy as int, a, b));
                                    } else if b < dy {
                                        assert(-t@ <= a <= t@ && -t@ <= b < dy);
                                        assert(!self.fits_shifted(s@, gx as int, gy as int, a, b));
                                    } else {
                                        assert(b == dy && -t@ <= a < dx);
                                        assert(!self.fits_shifted(s@, gx as int, gy as int, a, dy as int));
                                    }
                                }
                            }
                            return (true, cx, cy);
                        }
                    }
                    dx += 1;
                }
                dy += 1;
            }
        }
        assert forall|a: int, b: int| #[trigger] in_search(a, b, tolerance as int)
            implies !self.fits(block.cells@, grid_x + a, grid_y + b) by {
            assert(!self.fits_shifted(s@, gx as int, gy as int, a, b));
        }
        (false, gx, gy)
    }

    /// Marks every on-board cell of the piece, placed at `(grid_x, grid_y)`,
    /// with the piece's colour; cells that fall off the board are skipped.
    pub fn place_block(&mut self, block: &BlockShape, grid_x: i32, grid_y: i32)
        requires
            old(self).wf(),
        ensures
            final(self).wf(),
            forall|x: int, y: int|
                in_board(x, y) ==> final(self).cell(x, y) == if covers(
                    block.cells@,
                    grid_x as int,
                    grid_y as int,
                    x,
                    y,
                ) {
                    Some(block.color)
                } else {
                    old(self).cell(x, y)
                },
    {
        let s = Ghost(block.cells@);
        let mut i: usize = 0;
        while i < block.cells.len()
            invariant
                s@ == block.cells@,
                i <= s@.len(),
                self.wf(),
                forall|x: int, y: int|
                    in_board(x, y) ==> self.cell(x, y) == if covers(
                        s@.take(i as int),
                        grid_x as int,
                        grid_y as int,
                        x,
                        y,
                    ) {
                        Some(block.color)
                    } else {
                        old(self).cell(x, y)
                    },
            decreases s@.len() - i,
        {
            let (dx, dy) = block.cells[i];
            let x: i64 = grid_x as i64 + dx as i64;
            let y: i64 = grid_y as i64 + dy as i64;
            let ghost before = *self;
            if x >= 0 && x < 8 && y >= 0 && y < 8 {
                self.set_cell(x as usize, y as usize, Some(block.color));
            }
            proof {
                let p = s@.take(i as int);
                let q = s@.take(i as int + 1);
                assert forall|a: int, b: int| in_board(a, b) implies self.cell(a, b) == if covers(
                    q,
                    grid_x as int,
                    grid_y as int,
                    a,
                    b,
                ) {
                    Some(block.color)
                } else {
                    old(self).cell(a, b)
                } by {
                    if covers(p, grid_x as int, grid_y as int, a, b) {
                        let k = choose|k: int|
                            0 <= k < p.len() && grid_x + p[k].0 == a && grid_y + p[k].1 == b;
                        assert(q[k] == p[k]);
                    }
                    if a == x && b == y {
                        assert(q[i as int] == s@[i as int]);
                    } else if covers(q, grid_x as int, grid_y as int, a, b) {
                        let k = choose|k: int|
                            0 <= k < q.len() && grid_x + q[k].0 == a && grid_y + q[k].1 == b;
                        assert(k != i);
                        assert(p[k] == q[k]);
                    }
                }
            }
            i += 1;
        }
        assert(s@.take(i as int) =~= s@);
    }

    fn is_row_full(&self, y: usize) -> (r: bool)
        requires
            self.wf(),
            y < 8,
        ensures
            r == self.row_full(y as int),
    {
        let mut x: usize = 0;
        while x < 8
            invariant
                self.wf(),
                y < 8,
                x <= 8,
                forall|a: int| 0 <= a < x ==> self.occupied(a, y as int),
            decreases 8 - x,
        {
            if self.get_cell(x, y).is_none() {
                assert(!self.occupied(x as int, y as int));
                return false;
            }
            x += 1;
        }
        true
    }

    fn is_col_full(&self, x: usize) -> (r: bool)
        requires
            self.wf(),
            x < 8,
        ensures
            r == self.col_full(x as int),
    {
        let mut y: usize = 0;
        while y < 8
            invariant
                self.wf(),
                x < 8,
                y <= 8,
                forall|b: int| 0 <= b < y ==> self.occupied(x as int, b),
            decreases 8 - y,
        {
            if self.get_cell(x, y).is_none() {
                assert(!self.occupied(x as int, y as int));
                return false;
            }
            y += 1;
        }
        true
    }

    /// Finds every full row and every full column first, then empties the
    /// union of their cells in one pass, so a cell where a full row meets a
    /// full column is cleared once. Returns the indices of the cleared rows
    /// and of the cleared columns, in increasing order.
    pub fn check_and_clear(&mut self) -> (r: (Vec<usize>, Vec<usize>))
        requires
            old(self).wf(),
        ensures
            final(self).wf(),
            lists_exactly(r.0@, |y: int| old(self).row_full(y)),
            lists_exactly(r.1@, |x: int| old(self).col_full(x)),
            forall|x: int, y: int|
                in_board(x, y) ==> final(self).cell(x, y) == if old(self).row_full(y) || old(
                    self,
                ).col_full(x) {
                    None
                } else {
                    old(self).cell(x, y)
                },
    {
        let ghost start = *self;
        let mut rows: Vec<usize> = Vec::new();
        let mut row_flags: Vec<bool> = Vec::new();
        let mut y: usize = 0;
        while y < 8
            invariant
                *self == start,
                self.wf(),
                y <= 8,
                row_flags@.len() == y,
                forall|k: int| 0 <= k < y ==> row_flags@[k] == self.row_full(k),
                forall|i: int, j: int| 0 <= i < j < rows@.len() ==> rows@[i] < rows@[j],
                forall|i: int| 0 <= i < rows@.len() ==> rows@[i] < y && self.row_full(rows@[i] as int),
                forall|k: int| 0 <= k < y && self.row_full(k) ==> rows@.contains(k as usize),
            decreases 8 - y,
        {
            let full = self.is_row_full(y);
            if full {
                proof {
                    lemma_push_contains(rows@, y);
                }
                rows.push(y);
                assert(rows@[rows@.len() - 1] == y);
            }
            row_flags.push(full);
            y += 1;
        }
        let mut cols: Vec<usize> = Vec::new();
        let mut col_flags: Vec<bool> = Vec::new();
        let mut x: usize = 0;
        while x < 8
            invariant
                *self == start,
                self.wf(),
                x <= 8,
                col_flags@.len() == x,
                forall|k: int| 0 <= k < x ==> col_flags@[k] == self.col_full(k),
                forall|i: int, j: int| 0 <= i < j < cols@.len() ==> cols@[i] < cols@[j],
                forall|i: int| 0 <= i < cols@.len() ==> cols@[i] < x && self.col_full(cols@[i] as int),
                forall|k: int| 0 <= k < x && self.col_full(k) ==> cols@.contains(k as usize),
            decreases 8 - x,
        {
            let full = self.is_col_full(x);
            if full {
                proof {
                    lemma_push_contains(cols@, x);
                }
                cols.push(x);
                assert(cols@[cols@.len() - 1] == x);
            }
            col_flags.push(full);
            x += 1;
        }
        if rows.len() == 0 && cols.len() == 0 {
            proof {
                assert forall|a: int| 0 <= a < 8 implies !start.row_full(a) && !start.col_full(a) by {
                    if start.row_full(a) {
                        assert(rows@.contains(a as usize));
                    }
                    if start.col_full(a) {
                        assert(cols@.contains(a as usize));
                    }
                }
            }
            return (Vec::new(), Vec::new());
        }
        let mut y: usize = 0;
        while y < 8
            invariant
                self.wf(),
                y <= 8,
                row_flags@.len() == 8,
                col_flags@.len() == 8,
                forall|k: int| 0 <= k < 8 ==> row_flags@[k] == start.row_full(k),
                forall|k: int| 0 <= k < 8 ==> col_flags@[k] == start.col_full(k),
                forall|a: int, b: int|
                    in_board(a, b) ==> self.cell(a, b) == if b < y && (start.row_full(b)
                        || start.col_full(a)) {
                        None
                    } else {
                        start.cell(a, b)
                    },
            decreases 8 - y,
        {
            let mut x: usize = 0;
            while x < 8
                invariant
                    self.wf(),
                    y < 8,
                    x <= 8,
                    row_flags@.len() == 8,
                    col_flags@.len() == 8,
                    forall|k: int| 0 <= k < 8 ==> row_flags@[k] == start.row_full(k),
                    forall|k: int| 0 <= k < 8 ==> col_flags@[k] == start.col_full(k),
                    forall|a: int, b: int|
                        in_board(a, b) ==> self.cell(a, b) == if (b < y || (b == y && a < x)) && (
                        start.row_full(b) || start.col_full(a)) {
                            None
                        } else {
                            start.cell(a, b)
                        },
                decreases 8 - x,
            {
                if row_flags[y] || col_flags[x] {
                    self.set_cell(x, y, None);
                }
                x += 1;
            }
            y += 1;
        }
        (rows, cols)
    }

    /// Rows and columns with exactly `cells_needed_to_complete` empty cells,
    /// each list in increasing order.
    pub fn get_almost_complete_lines(&self, cells_needed_to_complete: usize) -> (r: (
        Vec<usize>,
        Vec<usize>,
    ))
        requires
            self.wf(),
        ensures
            lists_exactly(
                r.0@,
                |y: int| self.count_empty_in_row(y, 8) == cells_needed_to_complete,
            ),
            lists_exactly(
                r.1@,
                |x: int| self.count_empty_in_col(x, 8) == cells_needed_to_complete,
            ),
    {
        let k = cells_needed_to_complete;
        let mut rows: Vec<usize> = Vec::new();
        let mut r_idx: usize = 0;
        while r_idx < 8
            invariant
                self.wf(),
                r_idx <= 8,
                forall|i: int, j: int| 0 <= i < j < rows@.len() ==> rows@[i] < rows@[j],
                forall|i: int|
                    0 <= i < rows@.len() ==> rows@[i] < r_idx && self.count_empty_in_row(
                        rows@[i] as int,
                        8,
                    ) == k,
                forall|a: int|
                    0 <= a < r_idx && self.count_empty_in_row(a, 8) == k ==> rows@.contains(
                        a as usize,
                    ),
            decreases 8 - r_idx,
        {
            let mut empty: usize = 0;
            let mut c_idx: usize = 0;
            while c_idx < 8
                invariant
                    self.wf(),
                    r_idx < 8,
                    c_idx <= 8,
                    empty == self.count_empty_in_row(r_idx as int, c_idx as int),
                    empty <= c_idx,
                decreases 8 - c_idx,
            {
                if self.get_cell(c_idx, r_idx).is_none() {
                    empty += 1;
                }
                c_idx += 1;
            }
            if empty == k {
                proof {
                    lemma_push_contains(rows@, r_idx);
                }
                rows.push(r_idx);
                assert(rows@[rows@.len() - 1] == r_idx);
            }
            r_idx += 1;
        }
        let mut cols: Vec<usize> = Vec::new();
        let mut c_idx: usize = 0;
        while c_idx < 8
            invariant
                self.wf(),
                c_idx <= 8,
                forall|i: int, j: int| 0 <= i < j < cols@.len() ==> cols@[i] < cols@[j],
                forall|i: int|
                    0 <= i < cols@.len() ==> cols@[i] < c_idx && self.count_empty_in_col(
                        cols@[i] as int,
                        8,
                    ) == k,
                forall|a: int|
                    0 <= a < c_idx && self.count_empty_in_col(a, 8) == k ==> cols@.contains(
                        a as usize,
                    ),
            decreases 8 - c_idx,
        {
            let mut empty: usize = 0;
            let mut r_idx: usize = 0;
            while r_idx < 8
                invariant
                    self.wf(),
                    c_idx < 8,
                    r_idx <= 8,
                    empty == self.count_empty_in_col(c_idx as int, r_idx as int),
                    empty <= r_idx,
                decreases 8 - r_idx,
            {
                if self.get_cell(c_idx, r_idx).is_none() {
                    empty += 1;
                }
                r_idx += 1;
            }
            if empty == k {
                proof {
                    lemma_push_contains(cols@, c_idx);
                }
                cols.push(c_idx);
                assert(cols@[cols@.len() - 1] == c_idx);
            }
            c_idx += 1;
        }
        (rows, cols)
    }

    /// The share of occupied cells, as occupied cells over 64.
    pub fn get_filled_ratio(&self) -> (r: Ratio)
        requires
            self.wf(),
        ensures
            r.num == self.count_occupied(64),
            r.den == 64,
    {
        let mut filled: u64 = 0;
        let mut y: usize = 0;
        while y < 8
            invariant
                self.wf(),
                y <= 8,
                filled == self.count_occupied(8 * y),
                filled <= 8 * y,
            decreases 8 - y,
        {
            let mut x: usize = 0;
            while x < 8
                invariant
                    self.wf(),
                    y < 8,
                    x <= 8,
                    filled == self.count_occupied(8 * y + x),
                    filled <= 8 * y + x,
                decreases 8 - x,
            {
                assert((8 * y + x) % 8 == x && (8 * y + x) / 8 == y) by (nonlinear_arith)
                    requires
                        x < 8,
                ;
                if self.get_cell(x, y).is_some() {
                    filled += 1;
                }
                x += 1;
            }
            y += 1;
        }
        Ratio { num: filled, den: 64 }
    }
}

} // verus!
