//! Connected empty regions of the board (4-connectivity) and their summaries.
use vstd::prelude::*;
use crate::grid::{Grid, in_board};
use crate::ratio::Ratio;

verus! {

/// Both coordinates are on the board.
pub open spec fn on_board(c: (usize, usize)) -> bool {
    c.0 < 8 && c.1 < 8
}

/// Row-major index of a cell.
pub open spec fn index_of(c: (usize, usize)) -> int {
    c.1 * 8 + c.0
}

/// The two cells share a side.
pub open spec fn adjacent(a: (usize, usize), b: (usize, usize)) -> bool {
    (a.0 == b.0 && (a.1 + 1 == b.1 || b.1 + 1 == a.1)) || (a.1 == b.1 && (a.0 + 1 == b.0 || b.0
        + 1 == a.0))
}

pub open spec fn free_cell(g: Grid, c: (usize, usize)) -> bool {
    g.free(c.0 as int, c.1 as int)
}

/// `parent` names, for each cell after the first, an earlier cell that it touches.
pub open spec fn grown_by(r: Seq<(usize, usize)>, parent: Seq<int>) -> bool {
    &&& parent.len() == r.len()
    &&& forall|i: int|
        0 < i < r.len() ==> 0 <= #[trigger] parent[i] < i && adjacent(r[parent[i]], r[i])
}

/// Each cell after the first touches an earlier one.
pub open spec fn grown_from_first(r: Seq<(usize, usize)>) -> bool {
    exists|parent: Seq<int>| grown_by(r, parent)
}

/// `r` is one maximal 4-connected set of empty cells: its cells are empty and
/// distinct, the first comes first in row-major order, each after the first
/// touches an earlier one, and every empty cell touching it belongs to it.
pub open spec fn is_region(g: Grid, r: Seq<(usize, usize)>) -> bool {
    &&& r.len() > 0
    &&& forall|i: int| 0 <= i < r.len() ==> free_cell(g, #[trigger] r[i])
    &&& forall|i: int| 0 <= i < r.len() ==> index_of(r[0]) <= index_of(#[trigger] r[i])
    &&& forall|i: int, j: int| 0 <= i < r.len() && 0 <= j < r.len() && i != j ==> r[i] != r[j]
    &&& grown_from_first(r)
    &&& forall|i: int, c: (usize, usize)|
        0 <= i < r.len() && #[trigger] adjacent(r[i], c) && free_cell(g, c) ==> r.contains(c)
}

/// Number of `true` entries.
pub open spec fn num_true(s: Seq<bool>) -> nat
    decreases s.len(),
{
    if s.len() == 0 {
        0
    } else {
        num_true(s.drop_last()) + if s.last() {
            1nat
        } else {
            0nat
        }
    }
}

proof fn lemma_num_true_bound(s: Seq<bool>)
    ensures
        num_true(s) <= s.len(),
    decreases s.len(),
{
    if s.len() > 0 {
        lemma_num_true_bound(s.drop_last());
    }
}

proof fn lemma_num_true_set(s: Seq<bool>, i: int)
    requires
        0 <= i < s.len(),
        !s[i],
    ensures
        num_true(s.update(i, true)) == num_true(s) + 1,
    decreases s.len(),
{
    let u = s.update(i, true);
    if i == s.len() - 1 {
        assert(u.drop_last() =~= s.drop_last());
    } else {
        assert(u.drop_last() =~= s.drop_last().update(i, true));
        lemma_num_true_set(s.drop_last(), i);
    }
}

/// The neighbour of `(x, y)` in direction `d` (up, down, left, right), if on the board.
pub open spec fn neighbor_spec(x: usize, y: usize, d: int) -> Option<(usize, usize)> {
    if d == 0 {
        if y > 0 { Some((x, (y - 1) as usize)) } else { None }
    } else if d == 1 {
        if y < 7 { Some((x, (y + 1) as usize)) } else { None }
    } else if d == 2 {
        if x > 0 { Some(((x - 1) as usize, y)) } else { None }
    } else {
        if x < 7 { Some(((x + 1) as usize, y)) } else { None }
    }
}

fn neighbor(x: usize, y: usize, d: usize) -> (r: Option<(usize, usize)>)
    requires
        x < 8,
        y < 8,
    ensures
        r == neighbor_spec(x, y, d as int),
{
    if d == 0 {
        if y > 0 { Some((x, y - 1)) } else { None }
    } else if d == 1 {
        if y < 7 { Some((x, y + 1)) } else { None }
    } else if d == 2 {
        if x > 0 { Some((x - 1, y)) } else { None }
    } else {
        if x < 7 { Some((x + 1, y)) } else { None }
    }
}

proof fn lemma_neighbors_listed(x: usize, y: usize, c: (usize, usize))
    requires
        x < 8,
        y < 8,
        on_board(c),
        adjacent((x, y), c),
    ensures
        exists|d: int| 0 <= d < 4 && neighbor_spec(x, y, d) == Some(c),
{
    if c.0 == x && c.1 + 1 == y {
        assert(neighbor_spec(x, y, 0) == Some(c));
    } else if c.0 == x && y + 1 == c.1 {
        assert(neighbor_spec(x, y, 1) == Some(c));
    } else if c.1 == y && c.0 + 1 == x {
        assert(neighbor_spec(x, y, 2) == Some(c));
    } else {
        assert(neighbor_spec(x, y, 3) == Some(c));
    }
}

/// Collects the empty, not yet visited cells reachable from `(sx, sy)`,
/// marking them visited. Each collected cell after the first touches an
/// earlier one; every empty neighbour of a collected cell ends up visited.
fn flood_fill(g: &Grid, sx: usize, sy: usize, visited: &mut Vec<bool>) -> (cells: Vec<
    (usize, usize),
>)
    requires
        g.wf(),
        old(visited)@.len() == 64,
        sx < 8,
        sy < 8,
        g.free(sx as int, sy as int),
        !old(visited)@[sy * 8 + sx],
    ensures
        final(visited)@.len() == 64,
        cells@.len() > 0,
        cells@.len() <= 64,
        cells@[0] == (sx, sy),
        num_true(final(visited)@) == num_true(old(visited)@) + cells@.len(),
        forall|c: (usize, usize)|
            on_board(c) ==> (final(visited)@[index_of(c)] <==> old(visited)@[index_of(c)]
                || cells@.contains(c)),
        forall|i: int|
            0 <= i < cells@.len() ==> on_board(#[trigger] cells@[i]) && free_cell(*g, cells@[i])
                && !old(visited)@[index_of(cells@[i])],
        forall|i: int, j: int|
            0 <= i < cells@.len() && 0 <= j < cells@.len() && i != j ==> cells@[i] != cells@[j],
        grown_from_first(cells@),
        forall|i: int, c: (usize, usize)|
            0 <= i < cells@.len() && #[trigger] adjacent(cells@[i], c) && free_cell(*g, c)
                ==> final(visited)@[index_of(c)],
{
    let ghost v0 = visited@;
    let mut cells: Vec<(usize, usize)> = Vec::new();
    let mut stack: Vec<(usize, usize)> = Vec::new();
    let ghost mut parent: Seq<int> = seq![0int];
    proof {
        lemma_num_true_set(visited@, sy * 8 + sx);
    }
    visited.set(sy * 8 + sx, true);
    cells.push((sx, sy));
    stack.push((sx, sy));
    assert(cells@[0] == (sx, sy));
    while stack.len() > 0
        invariant
            g.wf(),
            visited@.len() == 64,
            v0.len() == 64,
            cells@.len() > 0,
            cells@[0] == (sx, sy),
            num_true(visited@) == num_true(v0) + cells@.len(),
            forall|c: (usize, usize)|
                on_board(c) ==> (visited@[index_of(c)] <==> v0[index_of(c)] || cells@.contains(c)),
            forall|i: int|
                0 <= i < cells@.len() ==> on_board(#[trigger] cells@[i]) && free_cell(*g, cells@[i])
                    && !v0[index_of(cells@[i])],
            forall|i: int, j: int|
                0 <= i < cells@.len() && 0 <= j < cells@.len() && i != j ==> cells@[i]
                    != cells@[j],
            parent.len() == cells@.len(),
            forall|i: int|
                0 < i < cells@.len() ==> 0 <= #[trigger] parent[i] < i && adjacent(
                    cells@[parent[i]],
                    cells@[i],
                ),
            forall|k: int| 0 <= k < stack@.len() ==> cells@.contains(#[trigger] stack@[k]),
            forall|k1: int, k2: int|
                0 <= k1 < stack@.len() && 0 <= k2 < stack@.len() && k1 != k2 ==> stack@[k1]
                    != stack@[k2],
            forall|i: int, c: (usize, usize)|
                0 <= i < cells@.len() && #[trigger] adjacent(cells@[i], c) && free_cell(*g, c)
                    ==> stack@.contains(cells@[i]) || visited@[index_of(c)],
        decreases 2 * (64 - num_true(visited@)) + stack@.len(),
    {
        proof {
            lemma_num_true_bound(visited@);
        }
        let ghost stack_before = stack@;
        let ghost visited_before = visited@;
        let ghost cells_before = cells@;
        let (x, y) = stack.pop().unwrap();
        let ghost m = (x, y);
        assert(stack_before.last() == m);
        assert(stack@ =~= stack_before.drop_last());
        assert(cells@.contains(m));
        assert(on_board(m)) by {
            let i = choose|i: int| 0 <= i < cells@.len() && cells@[i] == m;
            assert(on_board(cells@[i]));
        }
        assert forall|i: int, c: (usize, usize)|
            0 <= i < cells@.len() && #[trigger] adjacent(cells@[i], c) && free_cell(*g, c)
                implies stack@.contains(cells@[i]) || cells@[i] == m || visited@[index_of(c)] by {
            if stack_before.contains(cells@[i]) && cells@[i] != m {
                let k = choose|k: int| 0 <= k < stack_before.len() && stack_before[k] == cells@[i];
                assert(k != stack_before.len() - 1);
                assert(stack@[k] == cells@[i]);
            }
        }
        assert(!stack@.contains(m)) by {
            if stack@.contains(m) {
                let k = choose|k: int| 0 <= k < stack@.len() && stack@[k] == m;
                assert(stack_before[k] == m);
                assert(stack_before[stack_before.len() - 1] == m);
            }
        }
        let mut d: usize = 0;
        while d < 4
            invariant
                g.wf(),
                x < 8,
                y < 8,
                m == (x, y),
                d <= 4,
                visited@.len() == 64,
                v0.len() == 64,
                cells@.len() > 0,
                cells@[0] == (sx, sy),
                num_true(visited@) == num_true(v0) + cells@.len(),
                cells@.contains(m),
                forall|c: (usize, usize)|
                    on_board(c) ==> (visited@[index_of(c)] <==> v0[index_of(c)] || cells@.contains(
                        c,
                    )),
                forall|i: int|
                    0 <= i < cells@.len() ==> on_board(#[trigger] cells@[i]) && free_cell(
                        *g,
                        cells@[i],
                    ) && !v0[index_of(cells@[i])],
                forall|i: int, j: int|
                    0 <= i < cells@.len() && 0 <= j < cells@.len() && i != j ==> cells@[i]
                        != cells@[j],
                parent.len() == cells@.len(),
                forall|i: int|
                    0 < i < cells@.len() ==> 0 <= #[trigger] parent[i] < i && adjacent(
                        cells@[parent[i]],
                        cells@[i],
                    ),
                forall|k: int| 0 <= k < stack@.len() ==> cells@.contains(#[trigger] stack@[k]),
                forall|k1: int, k2: int|
                    0 <= k1 < stack@.len() && 0 <= k2 < stack@.len() && k1 != k2 ==> stack@[k1]
                        != stack@[k2],
                !stack@.contains(m),
                forall|i: int, c: (usize, usize)|
                    0 <= i < cells@.len() && #[trigger] adjacent(cells@[i], c) && free_cell(*g, c)
                        ==> stack@.contains(cells@[i]) || cells@[i] == m || visited@[index_of(c)],
                forall|e: int|
                    0 <= e < d && (#[trigger] neighbor_spec(x, y, e)) is Some && free_cell(
                        *g,
                        neighbor_spec(x, y, e)->0,
                    ) ==> visited@[index_of(neighbor_spec(x, y, e)->0)],
                num_true(visited@) <= 64,
                2 * (64 - num_true(visited@)) + stack@.len() < 2 * (64 - num_true(visited_before))
                    + stack_before.len(),
            decreases 4 - d,
        {
            let nb = neighbor(x, y, d);
            if let Some((nx, ny)) = nb {
                if g.get_cell(nx, ny).is_none() && !visited[ny * 8 + nx] {
                    let ghost c = (nx, ny);
                    proof {
                        lemma_num_true_set(visited@, ny * 8 + nx);
                        assert(!cells@.contains(c));
                        assert(!stack@.contains(c)) by {
                            if stack@.contains(c) {
                                let k = choose|k: int| 0 <= k < stack@.len() && stack@[k] == c;
                                assert(cells@.contains(stack@[k]));
                            }
                        }
                    }
                    let ghost cells_prev = cells@;
                    let ghost stack_prev = stack@;
                    let ghost jm = choose|j: int| 0 <= j < cells_prev.len() && cells_prev[j] == m;
                    assert(on_board(c));
                    assert(index_of(c) == ny * 8 + nx);
                    assert(!visited@[index_of(c)]);
                    assert(!v0[index_of(c)]);
                    assert(free_cell(*g, c));
                    visited.set(ny * 8 + nx, true);
                    cells.push((nx, ny));
                    stack.push((nx, ny));
                    proof {
                        lemma_num_true_bound(visited@);
                        let n = cells@.len() - 1;
                        assert(cells@[n] == c);
                        assert forall|i: int| 0 <= i < cells_prev.len() implies cells@[i]
                            == cells_prev[i] by {}
                        assert forall|q: (usize, usize)| cells_prev.contains(q) implies cells@.contains(
                            q,
                        ) by {
                            let i = choose|i: int| 0 <= i < cells_prev.len() && cells_prev[i] == q;
                            assert(cells@[i] == q);
                        }
                        assert forall|q: (usize, usize)| stack_prev.contains(q) implies stack@.contains(
                            q,
                        ) by {
                            let i = choose|i: int| 0 <= i < stack_prev.len() && stack_prev[i] == q;
                            assert(stack@[i] == q);
                        }
                        assert(stack@[stack@.len() - 1] == c);
                        assert(cells@.contains(c));
                        assert(cells@.contains(m));
                        parent = parent.push(jm);
                        assert(adjacent(cells@[jm], cells@[n]));
                        assert forall|i: int|
                            0 < i < cells@.len() implies 0 <= #[trigger] parent[i] < i && adjacent(
                                cells@[parent[i]],
                                cells@[i],
                            ) by {
                            if i < n {
                                assert(cells@[parent[i]] == cells_prev[parent[i]]);
                            }
                        }
                        assert forall|q: (usize, usize)| on_board(q) implies (visited@[index_of(q)]
                            <==> v0[index_of(q)] || cells@.contains(q)) by {
                            if cells@.contains(q) && !cells_prev.contains(q) {
                                let i = choose|i: int| 0 <= i < cells@.len() && cells@[i] == q;
                                if i < n {
                                    assert(cells_prev[i] == q);
                                }
                            }
                            if index_of(q) == index_of(c) {
                                assert(q == c);
                            }
                        }
                    }
                }
            }
            d += 1;
        }
        proof {
            assert forall|i: int, c: (usize, usize)|
                0 <= i < cells@.len() && #[trigger] adjacent(cells@[i], c) && free_cell(*g, c)
                    implies stack@.contains(cells@[i]) || visited@[index_of(c)] by {
                if cells@[i] == m {
                    lemma_neighbors_listed(x, y, c);
                    let e = choose|e: int| 0 <= e < 4 && neighbor_spec(x, y, e) == Some(c);
                }
            }
        }
    }
    assert(grown_by(cells@, parent));
    proof {
        lemma_num_true_bound(visited@);
    }
    cells
}

/// The cell x coordinate, or y when `vertical` holds.
pub open spec fn axis(c: (usize, usize), vertical: bool) -> int {
    if vertical {
        c.1 as int
    } else {
        c.0 as int
    }
}

/// Least coordinate on one axis; 0 for no cells.
pub open spec fn least(s: Seq<(usize, usize)>, vertical: bool) -> int
    decreases s.len(),
{
    if s.len() == 0 {
        0
    } else if s.len() == 1 {
        axis(s[0], vertical)
    } else {
        let m = least(s.drop_last(), vertical);
        if axis(s.last(), vertical) < m {
            axis(s.last(), vertical)
        } else {
            m
        }
    }
}

/// Greatest coordinate on one axis; 0 for no cells.
pub open spec fn greatest(s: Seq<(usize, usize)>, vertical: bool) -> int
    decreases s.len(),
{
    if s.len() == 0 {
        0
    } else if s.len() == 1 {
        axis(s[0], vertical)
    } else {
        let m = greatest(s.drop_last(), vertical);
        if axis(s.last(), vertical) > m {
            axis(s.last(), vertical)
        } else {
            m
        }
    }
}

pub open spec fn min_int(a: int, b: int) -> int {
    if a < b {
        a
    } else {
        b
    }
}

pub open spec fn max_int(a: int, b: int) -> int {
    if a > b {
        a
    } else {
        b
    }
}

/// Aspect ratio times bounding-box fill: `(min(w, h) / max(w, h)) * (n / (w * h))`.
pub open spec fn shape_score_of(w: int, h: int, n: int) -> Ratio {
    Ratio { num: (min_int(w, h) * n) as u64, den: (max_int(w, h) * w * h) as u64 }
}

/// Summary of one connected empty region.
#[derive(Clone, Debug)]
pub struct RegionInfo {
    pub cell_count: usize,
    pub min_x: usize,
    pub max_x: usize,
    pub min_y: usize,
    pub max_y: usize,
    pub width: usize,
    pub height: usize,
    pub shape_score: Ratio,
    pub cells: Vec<(usize, usize)>,
}

impl RegionInfo {
    /// The region's cells, in the order the flood fill reached them.
    pub open spec fn cells_view(&self) -> Seq<(usize, usize)> {
        self.cells@
    }

    /// The public fields summarize the cells: count, bounding box and shape score.
    pub open spec fn summarizes(&self) -> bool {
        let s = self.cells_view();
        &&& self.cell_count == s.len()
        &&& self.min_x == least(s, false)
        &&& self.max_x == greatest(s, false)
        &&& self.min_y == least(s, true)
        &&& self.max_y == greatest(s, true)
        &&& self.width == self.max_x - self.min_x + 1
        &&& self.height == self.max_y - self.min_y + 1
        &&& self.shape_score == shape_score_of(
            self.width as int,
            self.height as int,
            self.cell_count as int,
        )
    }

    fn from_cells(cells: Vec<(usize, usize)>) -> (r: Self)
        requires
            0 < cells@.len() <= 64,
            forall|i: int| 0 <= i < cells@.len() ==> on_board(#[trigger] cells@[i]),
        ensures
            r.cells_view() == cells@,
            r.summarizes(),
            1 <= r.width <= 8,
            1 <= r.height <= 8,
    {
        let s = Ghost(cells@);
        let mut min_x: usize = cells[0].0;
        let mut max_x: usize = cells[0].0;
        let mut min_y: usize = cells[0].1;
        let mut max_y: usize = cells[0].1;
        assert(on_board(cells@[0]));
        let mut i: usize = 1;
        while i < cells.len()
            invariant
                s@ == cells@,
                1 <= i <= s@.len(),
                forall|k: int| 0 <= k < s@.len() ==> on_board(#[trigger] s@[k]),
                min_x == least(s@.take(i as int), false),
                max_x == greatest(s@.take(i as int), false),
                min_y == least(s@.take(i as int), true),
                max_y == greatest(s@.take(i as int), true),
                min_x <= max_x < 8,
                min_y <= max_y < 8,
            decreases s@.len() - i,
        {
            proof {
                assert(s@.take(i as int + 1).drop_last() =~= s@.take(i as int));
                assert(on_board(s@[i as int]));
            }
            let (x, y) = cells[i];
            if x < min_x {
                min_x = x;
            }
            if x > max_x {
                max_x = x;
            }
            if y < min_y {
                min_y = y;
            }
            if y > max_y {
                max_y = y;
            }
            i += 1;
        }
        assert(s@.take(i as int) =~= s@);
        let width = max_x - min_x + 1;
        let height = max_y - min_y + 1;
        let (short, long) = if width < height {
            (width, height)
        } else {
            (height, width)
        };
        let n = cells.len();
        assert((short as u64) * (n as u64) <= 8 * 64 && (long as u64) * (width as u64) <= 64 && (
        long as u64) * (width as u64) * (height as u64) <= 512) by (nonlinear_arith)
            requires
                short <= 8,
                long <= 8,
                width <= 8,
                height <= 8,
                n <= 64,
        ;
        let shape_score = Ratio {
            num: (short as u64) * (n as u64),
            den: (long as u64) * (width as u64) * (height as u64),
        };
        RegionInfo {
            cell_count: n,
            min_x,
            max_x,
            min_y,
            max_y,
            width,
            height,
            shape_score,
            cells,
        }
    }

    /// Whether the bounding box is at least 4 wide and 4 high.
    pub fn can_fit_4x4_block(&self) -> (r: bool)
        ensures
            r == (self.width >= 4 && self.height >= 4),
    {
        self.width >= 4 && self.height >= 4
    }

    /// Whether the shape score is above one half and the region has at least 9 cells.
    pub fn is_square_like(&self) -> (r: bool)
        requires
            self.shape_score.num <= u32::MAX,
        ensures
            r == (2 * self.shape_score.num > self.shape_score.den && self.cell_count >= 9),
    {
        2 * self.shape_score.num > self.shape_score.den && self.cell_count >= 9
    }
}

/// The regions are listed largest first; equal sizes keep the row-major
/// order of their first cell.
pub open spec fn sorted_by_size(rs: Seq<RegionInfo>) -> bool {
    forall|k: int|
        0 < k < rs.len() ==> {
            ||| rs[k - 1].cell_count > (#[trigger] rs[k]).cell_count
            ||| rs[k - 1].cell_count == rs[k].cell_count && index_of(rs[k - 1].cells_view()[0])
                < index_of(rs[k].cells_view()[0])
        }
}

/// `rs` is the region analysis of `g`: every region is a maximal connected
/// set of empty cells with a correct summary, no cell lies in two regions,
/// every empty cell lies in one, and the list is sorted largest first.
pub open spec fn is_analysis(g: Grid, rs: Seq<RegionInfo>) -> bool {
    &&& forall|k: int|
        0 <= k < rs.len() ==> is_region(g, (#[trigger] rs[k]).cells_view()) && rs[k].summarizes()
            && 1 <= rs[k].width <= 8 && 1 <= rs[k].height <= 8
    &&& forall|k1: int, k2: int, c: (usize, usize)|
        0 <= k1 < rs.len() && 0 <= k2 < rs.len() && k1 != k2 && (#[trigger] rs[k1].cells_view().contains(c))
            ==> !(#[trigger] rs[k2].cells_view().contains(c))
    &&& forall|c: (usize, usize)|
        free_cell(g, c) ==> exists|k: int|
            0 <= k < rs.len() && (#[trigger] rs[k].cells_view().contains(c))
    &&& sorted_by_size(rs)
}

/// Total number of cells over all regions.
pub open spec fn total_cells(rs: Seq<RegionInfo>) -> int
    decreases rs.len(),
{
    if rs.len() == 0 {
        0
    } else {
        total_cells(rs.drop_last()) + rs.last().cell_count
    }
}

proof fn lemma_total_insert(s: Seq<RegionInfo>, p: int, e: RegionInfo)
    requires
        0 <= p <= s.len(),
    ensures
        total_cells(s.insert(p, e)) == total_cells(s) + e.cell_count,
    decreases s.len(),
{
    if p == s.len() {
        assert(s.insert(p, e).drop_last() =~= s);
    } else {
        assert(s.insert(p, e).drop_last() =~= s.drop_last().insert(p, e));
        lemma_total_insert(s.drop_last(), p, e);
    }
}

proof fn lemma_num_true_zero(s: Seq<bool>)
    requires
        forall|k: int| 0 <= k < s.len() ==> !s[k],
    ensures
        num_true(s) == 0,
    decreases s.len(),
{
    if s.len() > 0 {
        lemma_num_true_zero(s.drop_last());
    }
}

/// Inserts after every region at least as large, keeping the order.
fn insert_by_size(regions: &mut Vec<RegionInfo>, info: RegionInfo) -> (p: usize)
    requires
        sorted_by_size(old(regions)@),
        info.cells_view().len() > 0,
        forall|k: int|
            0 <= k < old(regions)@.len() ==> (#[trigger] old(regions)@[k]).cells_view().len() > 0
                && index_of(old(regions)@[k].cells_view()[0]) < index_of(info.cells_view()[0]),
    ensures
        p <= old(regions)@.len(),
        final(regions)@ == old(regions)@.insert(p as int, info),
        sorted_by_size(final(regions)@),
{
    let mut p: usize = 0;
    while p < regions.len() && regions[p].cell_count >= info.cell_count
        invariant
            p <= regions@.len(),
            forall|k: int| 0 <= k < p ==> (#[trigger] regions@[k]).cell_count >= info.cell_count,
        decreases regions@.len() - p,
    {
        p += 1;
    }
    let ghost before = regions@;
    regions.insert(p, info);
    proof {
        let q = regions@;
        assert forall|k: int| 0 < k < q.len() implies {
            ||| q[k - 1].cell_count > (#[trigger] q[k]).cell_count
            ||| q[k - 1].cell_count == q[k].cell_count && index_of(q[k - 1].cells_view()[0])
                < index_of(q[k].cells_view()[0])
        } by {
            if k < p {
                assert(q[k - 1] == before[k - 1] && q[k] == before[k]);
            } else if k == p {
                assert(q[k - 1] == before[k - 1]);
            } else if k == p + 1 {
                assert(q[k] == before[p as int]);
            } else {
                assert(q[k - 1] == before[k - 2] && q[k] == before[k - 1]);
            }
        }
    }
    p
}

impl Grid {
    /// Splits the empty cells into maximal 4-connected regions, largest first.
    #[verifier::rlimit(60)]
    #[verifier::spinoff_prover]
    pub fn analyze_connected_empty_regions(&self) -> (r: Vec<RegionInfo>)
        requires
            self.wf(),
        ensures
            is_analysis(*self, r@),
            r@.len() <= 64,
            total_cells(r@) <= 64,
    {
        let mut visited: Vec<bool> = Vec::new();
        while visited.len() < 64
            invariant
                visited@.len() <= 64,
                forall|k: int| 0 <= k < visited@.len() ==> !visited@[k],
            decreases 64 - visited@.len(),
        {
            visited.push(false);
        }
        let mut regions: Vec<RegionInfo> = Vec::new();
        assert(num_true(visited@) == 0) by {
            lemma_num_true_zero(visited@);
        }
        let mut i: usize = 0;
        while i < 64
            invariant
                self.wf(),
                visited@.len() == 64,
                i <= 64,
                forall|k: int|
                    0 <= k < regions@.len() ==> is_region(*self, (#[trigger] regions@[k]).cells_view())
                        && regions@[k].summarizes() && 1 <= regions@[k].width <= 8 && 1
                        <= regions@[k].height <= 8 && index_of(regions@[k].cells_view()[0]) < i,
                forall|k1: int, k2: int, c: (usize, usize)|
                    0 <= k1 < regions@.len() && 0 <= k2 < regions@.len() && k1 != k2
                        && (#[trigger] regions@[k1].cells_view().contains(c))
                        ==> !(#[trigger] regions@[k2].cells_view().contains(c)),
                forall|c: (usize, usize)|
                    on_board(c) ==> (visited@[index_of(c)] <==> exists|k: int|
                        0 <= k < regions@.len() && (#[trigger] regions@[k].cells_view().contains(
                            c,
                        ))),
                forall|c: (usize, usize)|
                    on_board(c) && index_of(c) < i && free_cell(*self, c) ==> visited@[index_of(
                        c,
                    )],
                sorted_by_size(regions@),
                regions@.len() <= i,
                total_cells(regions@) == num_true(visited@),
            decreases 64 - i,
        {
            let x: usize = i % 8;
            let y: usize = i / 8;
            assert(y * 8 + x == i && y < 8 && x < 8) by (nonlinear_arith)
                requires
                    x == i % 8,
                    y == i / 8,
                    i < 64,
            ;
            let ghost here = (x, y);
            assert(index_of(here) == i);
            if self.get_cell(x, y).is_none() && !visited[i] {
                let ghost v_old = visited@;
                let ghost r_old = regions@;
                let cells = flood_fill(self, x, y, &mut visited);
                proof {
                    assert forall|j: int, c: (usize, usize)|
                        0 <= j < cells@.len() && #[trigger] adjacent(cells@[j], c) && free_cell(
                            *self,
                            c,
                        ) implies cells@.contains(c) by {
                        assert(on_board(c));
                        if !cells@.contains(c) {
                            assert(v_old[index_of(c)]);
                            let k = choose|k: int|
                                0 <= k < r_old.len() && r_old[k].cells_view().contains(c);
                            let rk = r_old[k].cells_view();
                            let jj = choose|jj: int| 0 <= jj < rk.len() && rk[jj] == c;
                            assert(adjacent(rk[jj], cells@[j]));
                            assert(free_cell(*self, cells@[j]));
                            assert(rk.contains(cells@[j]));
                            assert(on_board(cells@[j]));
                            assert(v_old[index_of(cells@[j])]);
                        }
                    }
                    assert forall|j: int| 0 <= j < cells@.len() implies index_of(cells@[0])
                        <= index_of(#[trigger] cells@[j]) by {
                        assert(on_board(cells@[j]) && free_cell(*self, cells@[j]));
                        assert(!v_old[index_of(cells@[j])]);
                    }
                    assert(is_region(*self, cells@));
                }
                let info = RegionInfo::from_cells(cells);
                assert(info.cells_view()[0] == here);
                let p = insert_by_size(&mut regions, info);
                proof {
                    lemma_total_insert(r_old, p as int, info);
                    let q = regions@;
                    let nc = info.cells_view();
                    assert forall|k: int| 0 <= k < q.len() implies (#[trigger] q[k]) == if k < p {
                        r_old[k]
                    } else if k == p {
                        info
                    } else {
                        r_old[k - 1]
                    } by {}
                    assert forall|c: (usize, usize)| #[trigger] nc.contains(c) implies !v_old[index_of(c)] && on_board(c) by {
                        let j = choose|j: int| 0 <= j < nc.len() && nc[j] == c;
                        assert(on_board(nc[j]));
                    }
                    assert forall|k1: int, k2: int, c: (usize, usize)|
                        0 <= k1 < q.len() && 0 <= k2 < q.len() && k1 != k2
                            && (#[trigger] q[k1].cells_view().contains(c))
                            implies !(#[trigger] q[k2].cells_view().contains(c)) by {
                        if k1 == p {
                            if q[k2].cells_view().contains(c) {
                                assert(v_old[index_of(c)]);
                            }
                        } else if k2 == p {
                            if q[k2].cells_view().contains(c) {
                                let kk = if k1 < p { k1 } else { k1 - 1 };
                                assert(r_old[kk].cells_view().contains(c));
                                assert(v_old[index_of(c)]);
                            }
                        } else {
                            let a = if k1 < p { k1 } else { k1 - 1 };
                            let b = if k2 < p { k2 } else { k2 - 1 };
                            assert(r_old[a].cells_view().contains(c));
                        }
                    }
                    assert forall|c: (usize, usize)|
                        on_board(c) implies (visited@[index_of(c)] <==> exists|k: int|
                            0 <= k < q.len() && (#[trigger] q[k].cells_view().contains(c))) by {
                        if visited@[index_of(c)] {
                            if nc.contains(c) {
                                assert(q[p as int].cells_view().contains(c));
                            } else {
                                let k = choose|k: int|
                                    0 <= k < r_old.len() && r_old[k].cells_view().contains(c);
                                let kq = if k < p { k } else { k + 1 };
                                assert(q[kq].cells_view().contains(c));
                            }
                        }
                        if exists|k: int| 0 <= k < q.len() && (#[trigger] q[k].cells_view().contains(c)) {
                            let k = choose|k: int| 0 <= k < q.len() && q[k].cells_view().contains(c);
                            if k != p {
                                let ko = if k < p { k } else { k - 1 };
                                assert(r_old[ko].cells_view().contains(c));
                            }
                        }
                    }
                }
            }
            proof {
                assert forall|c: (usize, usize)|
                    on_board(c) && index_of(c) < i + 1 && free_cell(*self, c) implies visited@[index_of(
                        c,
                    )] by {
                    if index_of(c) == i {
                        assert(c == here);
                    }
                }
            }
            i += 1;
        }
        proof {
            lemma_num_true_bound(visited@);
            assert forall|c: (usize, usize)| free_cell(*self, c) implies exists|k: int|
                0 <= k < regions@.len() && (#[trigger] regions@[k].cells_view().contains(c)) by {
                assert(on_board(c));
                assert(index_of(c) < 64);
                assert(visited@[index_of(c)]);
            }
        }
        regions
    }
}

/// Hundredths added for the size of the largest region.
pub open spec fn size_points(n: int) -> int {
    if n < 6 {
        40
    } else if n < 12 {
        25
    } else if n < 20 {
        15
    } else if n < 30 {
        8
    } else {
        0
    }
}

/// Hundredths added for a narrow or ragged largest region (score below 0.3 or 0.5).
pub open spec fn shape_points(s: Ratio) -> int {
    if 10 * s.num < 3 * s.den {
        25
    } else if 2 * s.num < s.den {
        12
    } else {
        0
    }
}

/// Hundredths added when under 30% (or under 50%) of the 64 cells are empty.
pub open spec fn scarcity_points(empty: int) -> int {
    if 100 * empty < 30 * 64 {
        15
    } else if 2 * empty < 64 {
        8
    } else {
        0
    }
}

/// Some region's bounding box is at least 4×4.
pub open spec fn any_fits_4x4(rs: Seq<RegionInfo>) -> bool {
    exists|k: int| 0 <= k < rs.len() && (#[trigger] rs[k]).width >= 4 && rs[k].height >= 4
}

/// The difficulty score of a region list: 1 when there is no region, else
/// the sum of the size, shape, scarcity and 4×4 terms (in hundredths) plus
/// 0.35 × regions / empty cells, capped at 1.
pub open spec fn difficulty_of(rs: Seq<RegionInfo>) -> Ratio {
    if rs.len() == 0 {
        Ratio { num: 1, den: 1 }
    } else {
        let e = total_cells(rs);
        let fixed = size_points(rs[0].cell_count as int) + shape_points(rs[0].shape_score)
            + scarcity_points(e) + if any_fits_4x4(rs) {
            0int
        } else {
            15int
        };
        let num = fixed * e + 35 * rs.len();
        let den = 100 * e;
        Ratio { num: min_int(num, den) as u64, den: den as u64 }
    }
}

/// The difficulty score of a region list, as [`difficulty_of`] defines it.
pub fn difficulty_from_regions(regions: &Vec<RegionInfo>) -> (r: Ratio)
    requires
        regions@.len() <= 64,
        total_cells(regions@) <= 64,
        forall|k: int| 0 <= k < regions@.len() ==> (#[trigger] regions@[k]).cell_count > 0,
        regions@.len() > 0 ==> regions@[0].shape_score.num <= u32::MAX
            && regions@[0].shape_score.den <= u32::MAX,
    ensures
        r == difficulty_of(regions@),
        r.num <= r.den,
        0 < r.den <= 6400,
{
    if regions.len() == 0 {
        return Ratio { num: 1, den: 1 };
    }
    let mut empty: u64 = 0;
    let mut any4 = false;
    let mut k: usize = 0;
    while k < regions.len()
        invariant
            k <= regions@.len(),
            regions@.len() <= 64,
            total_cells(regions@) <= 64,
            forall|j: int| 0 <= j < regions@.len() ==> (#[trigger] regions@[j]).cell_count > 0,
            empty == total_cells(regions@.take(k as int)),
            any4 == exists|j: int|
                0 <= j < k && (#[trigger] regions@[j]).width >= 4 && regions@[j].height >= 4,
        decreases regions@.len() - k,
    {
        proof {
            assert(regions@.take(k as int + 1).drop_last() =~= regions@.take(k as int));
            lemma_total_prefix(regions@, k as int + 1);
        }
        empty = empty + regions[k].cell_count as u64;
        if regions[k].can_fit_4x4_block() {
            any4 = true;
        }
        k += 1;
    }
    assert(regions@.take(k as int) =~= regions@);
    proof {
        lemma_total_prefix(regions@, 1);
        assert(regions@.take(1).drop_last() =~= Seq::<RegionInfo>::empty());
        assert(regions@.take(1).last() == regions@[0]);
        reveal_with_fuel(total_cells, 2);
        assert(total_cells(regions@.take(1)) == regions@[0].cell_count);
    }
    let largest = &regions[0];
    let mut fixed: u64 = 0;
    if largest.cell_count < 6 {
        fixed = fixed + 40;
    } else if largest.cell_count < 12 {
        fixed = fixed + 25;
    } else if largest.cell_count < 20 {
        fixed = fixed + 15;
    } else if largest.cell_count < 30 {
        fixed = fixed + 8;
    }
    if largest.shape_score.below_percent(30) {
        fixed = fixed + 25;
    } else if largest.shape_score.below_percent(50) {
        fixed = fixed + 12;
    }
    if 100 * empty < 30 * 64 {
        fixed = fixed + 15;
    } else if 2 * empty < 64 {
        fixed = fixed + 8;
    }
    if !any4 {
        fixed = fixed + 15;
    }
    assert(fixed * empty <= 95 * 64) by (nonlinear_arith)
        requires
            fixed <= 95,
            empty <= 64,
    ;
    let num = fixed * empty + 35 * (regions.len() as u64);
    let den = 100 * empty;
    assert(any4 == any_fits_4x4(regions@));
    Ratio { num: if num < den { num } else { den }, den }
}

proof fn lemma_total_prefix(rs: Seq<RegionInfo>, k: int)
    requires
        0 <= k <= rs.len(),
        forall|j: int| 0 <= j < rs.len() ==> (#[trigger] rs[j]).cell_count > 0,
    ensures
        total_cells(rs.take(k)) <= total_cells(rs),
    decreases rs.len() - k,
{
    if k < rs.len() {
        lemma_total_prefix(rs, k + 1);
        assert(rs.take(k + 1).drop_last() =~= rs.take(k));
    } else {
        assert(rs.take(k) =~= rs);
    }
}

impl Grid {
    /// How hard the board is, from 0 (easy) to 1: [`difficulty_of`] the region
    /// analysis, so exactly 1 when no cell is empty.
    pub fn get_difficulty_score(&self) -> (r: Ratio)
        requires
            self.wf(),
        ensures
            exists|rs: Seq<RegionInfo>| is_analysis(*self, rs) && r == difficulty_of(rs),
            r.num <= r.den,
            0 < r.den <= 6400,
            (forall|x: int, y: int| in_board(x, y) ==> self.occupied(x, y)) ==> r == (Ratio {
                num: 1,
                den: 1,
            }),
    {
        let regions = self.analyze_connected_empty_regions();
        proof {
            if regions@.len() > 0 {
                let rs = regions@;
                assert(is_region(*self, rs[0].cells_view()));
                assert(free_cell(*self, rs[0].cells_view()[0]));
                assert(rs[0].summarizes());
                let w = rs[0].width as int;
                let h = rs[0].height as int;
                let n = rs[0].cell_count as int;
                assert forall|k: int| 0 <= k < rs.len() implies (#[trigger] rs[k]).cell_count > 0 by {
                    assert(is_region(*self, rs[k].cells_view()));
                    assert(rs[k].summarizes());
                }
                lemma_total_prefix(rs, 1);
                assert(rs.take(1).drop_last() =~= Seq::<RegionInfo>::empty());
                assert(rs.take(1).last() == rs[0]);
                reveal_with_fuel(total_cells, 2);
                assert(total_cells(rs.take(1)) == rs[0].cell_count);
                assert(min_int(w, h) * n <= 8 * 64 && max_int(w, h) * w * h <= 512) by (nonlinear_arith)
                    requires
                        1 <= w <= 8,
                        1 <= h <= 8,
                        n <= 64,
                        min_int(w, h) <= 8,
                        max_int(w, h) <= 8,
                ;

            }
        }
        difficulty_from_regions(&regions)
    }
}

} // verus!
