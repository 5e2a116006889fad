//! Rescue pieces: small shapes, in any rotation, that fit the board's empty cells.
use vstd::prelude::*;
use crate::generator::get_random_block_color;
use crate::grid::Grid;
use crate::shape::{
    BlockShape,
    lemma_normalized,
    normalize_cells,
    normalized,
    rotate_90_clockwise,
    rotated,
    shiftable,
};

verus! {

/// Every coordinate is non-negative.
pub open spec fn non_negative(s: Seq<(i32, i32)>) -> bool {
    forall|i: int| 0 <= i < s.len() ==> (#[trigger] s[i]).0 >= 0 && s[i].1 >= 0
}

/// The `j`-th orientation tried: normalize, then (for each further step) turn
/// a quarter clockwise and normalize again.
pub open spec fn orientation(base: Seq<(i32, i32)>, j: nat) -> Seq<(i32, i32)>
    decreases j,
{
    if j == 0 {
        normalized(base)
    } else {
        normalized(rotated(orientation(base, (j - 1) as nat)))
    }
}

/// A quarter turn of non-negative cells can be normalized again.
proof fn lemma_rotated_shiftable(s: Seq<(i32, i32)>)
    requires
        non_negative(s),
    ensures
        shiftable(rotated(s)),
{
    let r = rotated(s);
    assert forall|i: int, j: int| 0 <= i < r.len() && 0 <= j < r.len() implies r[i].0 - r[j].0
        <= i32::MAX && r[i].1 - r[j].1 <= i32::MAX by {
        assert(s[i].0 >= 0 && s[j].0 >= 0 && s[i].1 >= 0 && s[j].1 >= 0);
    }
}

/// Every orientation of a shiftable shape is non-negative, with the same number of cells.
proof fn lemma_orientation(base: Seq<(i32, i32)>, j: nat)
    requires
        shiftable(base),
    ensures
        non_negative(orientation(base, j)),
        orientation(base, j).len() == base.len(),
    decreases j,
{
    if j == 0 {
        lemma_normalized(base);
    } else {
        let prev = orientation(base, (j - 1) as nat);
        lemma_orientation(base, (j - 1) as nat);
        lemma_rotated_shiftable(prev);
        lemma_normalized(rotated(prev));
    }
}

/// Number of times `c` occurs in `s`.
pub open spec fn count_of(s: Seq<(i32, i32)>, c: (i32, i32)) -> nat
    decreases s.len(),
{
    if s.len() == 0 {
        0
    } else {
        count_of(s.drop_last(), c) + if s.last() == c {
            1nat
        } else {
            0nat
        }
    }
}

/// The same cells with the same multiplicities, in any order.
pub open spec fn same_shape(a: Seq<(i32, i32)>, b: Seq<(i32, i32)>) -> bool {
    a.len() == b.len() && forall|i: int|
        0 <= i < a.len() ==> count_of(a, #[trigger] a[i]) == count_of(b, a[i])
}

/// The cells fit with one of their own cells on `(x, y)`.
pub open spec fn fits_with_anchor(g: Grid, s: Seq<(i32, i32)>, x: int, y: int) -> bool {
    exists|a: int| 0 <= a < s.len() && #[trigger] g.fits(s, x - s[a].0, y - s[a].1)
}

/// `s` is one of the four orientations of a usable candidate.
pub open spec fn candidate_orientation(ts: Seq<Vec<(i32, i32)>>, m: int, s: Seq<(i32, i32)>) -> bool {
    exists|t: int, j: int|
        0 <= t < ts.len() && usable(ts[t]@, m) && 0 <= j < 4 && s == #[trigger] orientation(
            ts[t]@,
            j as nat,
        )
}

/// `s` fits with one of its cells on some empty cell.
pub open spec fn fits_on_some_empty_cell(g: Grid, s: Seq<(i32, i32)>) -> bool {
    exists|x: int, y: int| g.free(x, y) && #[trigger] fits_with_anchor(g, s, x, y)
}

/// Candidate shape `t` is usable: non-empty and at most `max_cells` cells.
pub open spec fn usable(t: Seq<(i32, i32)>, max_cells: int) -> bool {
    0 < t.len() <= max_cells
}

fn count_in(s: &Vec<(i32, i32)>, c: (i32, i32)) -> (r: usize)
    ensures
        r == count_of(s@, c),
{
    let mut n: usize = 0;
    let mut i: usize = 0;
    while i < s.len()
        invariant
            i <= s@.len(),
            n == count_of(s@.take(i as int), c),
            n <= i,
        decreases s@.len() - i,
    {
        assert(s@.take(i as int + 1).drop_last() =~= s@.take(i as int));
        let (a, b) = s[i];
        if a == c.0 && b == c.1 {
            n += 1;
        }
        i += 1;
    }
    assert(s@.take(i as int) =~= s@);
    n
}

/// Whether the two cell lists hold the same cells with the same multiplicities.
pub fn same_cells(a: &Vec<(i32, i32)>, b: &Vec<(i32, i32)>) -> (r: bool)
    ensures
        r == same_shape(a@, b@),
{
    if a.len() != b.len() {
        return false;
    }
    let mut i: usize = 0;
    while i < a.len()
        invariant
            i <= a@.len(),
            a@.len() == b@.len(),
            forall|k: int| 0 <= k < i ==> count_of(a@, #[trigger] a@[k]) == count_of(b@, a@[k]),
        decreases a@.len() - i,
    {
        if count_in(a, a[i]) != count_in(b, a[i]) {
            return false;
        }
        i += 1;
    }
    true
}

/// A copy of the cells.
pub(crate) fn copy_cells(s: &Vec<(i32, i32)>) -> (r: Vec<(i32, i32)>)
    ensures
        r@ == s@,
{
    let mut r: Vec<(i32, i32)> = Vec::new();
    let mut i: usize = 0;
    while i < s.len()
        invariant
            i <= s@.len(),
            r@ == s@.take(i as int),
        decreases s@.len() - i,
    {
        r.push(s[i]);
        i += 1;
        assert(r@ =~= s@.take(i as int));
    }
    assert(r@ =~= s@);
    r
}

fn any_same_shape(out: &Vec<BlockShape>, cells: &Vec<(i32, i32)>) -> (r: bool)
    ensures
        r == exists|k: int| 0 <= k < out@.len() && same_shape((#[trigger] out@[k]).cells@, cells@),
{
    let mut k: usize = 0;
    while k < out.len()
        invariant
            k <= out@.len(),
            forall|j: int| 0 <= j < k ==> !same_shape((#[trigger] out@[j]).cells@, cells@),
        decreases out@.len() - k,
    {
        if same_cells(&out[k].cells, cells) {
            return true;
        }
        k += 1;
    }
    false
}

impl Grid {
    /// Whether the cells fit with one of their own cells on `(x, y)`.
    fn fits_some_anchor(&self, cells: &Vec<(i32, i32)>, x: usize, y: usize) -> (r: bool)
        requires
            self.wf(),
            x < 8,
            y < 8,
            non_negative(cells@),
        ensures
            r == fits_with_anchor(*self, cells@, x as int, y as int),
    {
        let mut a: usize = 0;
        while a < cells.len()
            invariant
                self.wf(),
                x < 8,
                y < 8,
                a <= cells@.len(),
                non_negative(cells@),
                forall|b: int|
                    0 <= b < a ==> !#[trigger] self.fits(
                        cells@,
                        x - cells@[b].0,
                        y - cells@[b].1,
                    ),
            decreases cells@.len() - a,
        {
            let (ax, ay) = cells[a];
            assert(0 <= ax && 0 <= ay);
            if self.cells_fit(cells, x as i32 - ax, y as i32 - ay) {
                return true;
            }
            a += 1;
        }
        false
    }

    /// Shapes that fit the board's empty cells: for each empty cell, each
    /// candidate of 1 to `max_cells_to_fill` cells, each of its four
    /// orientations, the orientation is kept when it fits with one of its own
    /// cells on that empty cell. Orientations with the same cells are kept once
    /// (the first found); each kept shape gets a palette colour.
    pub fn find_placeable_shapes_for_empty_spots(
        &self,
        max_cells_to_fill: usize,
        target_shapes: &Vec<Vec<(i32, i32)>>,
    ) -> (r: Vec<BlockShape>)
        requires
            self.wf(),
            forall|t: int|
                0 <= t < target_shapes@.len() ==> shiftable((#[trigger] target_shapes@[t])@),
        ensures
            forall|k: int|
                0 <= k < r@.len() ==> candidate_orientation(target_shapes@, max_cells_to_fill as int, (#[trigger] r@[k]).cells@)
                    && fits_on_some_empty_cell(*self, r@[k].cells@),
            forall|k1: int, k2: int|
                0 <= k1 < k2 < r@.len() ==> !same_shape(
                    (#[trigger] r@[k1]).cells@,
                    (#[trigger] r@[k2]).cells@,
                ),
            forall|t: int, j: int, x: int, y: int|
                0 <= t < target_shapes@.len() && usable(
                    target_shapes@[t]@,
                    max_cells_to_fill as int,
                ) && 0 <= j < 4 && self.free(x, y) && #[trigger] fits_with_anchor(*self, orientation(target_shapes@[t]@, j as nat), x, y) ==> exists|k: int|
                    0 <= k < r@.len() && same_shape(
                        (#[trigger] r@[k]).cells@,
                        orientation(target_shapes@[t]@, j as nat),
                    ),
    {
        let mut out: Vec<BlockShape> = Vec::new();
        if max_cells_to_fill == 0 || target_shapes.len() == 0 {
            return out;
        }
        let ghost ts = target_shapes@;
        let ghost m = max_cells_to_fill as int;
        let mut pos: usize = 0;
        while pos < 64
            invariant
                self.wf(),
                pos <= 64,
                ts == target_shapes@,
                m == max_cells_to_fill,
                forall|t: int|
                    0 <= t < ts.len() ==> shiftable((#[trigger] ts[t])@),
                forall|k: int|
                0 <= k < out@.len() ==> candidate_orientation(ts, m, (#[trigger] out@[k]).cells@)
                    && fits_on_some_empty_cell(*self, out@[k].cells@),
                forall|k1: int, k2: int|
                    0 <= k1 < k2 < out@.len() ==> !same_shape(
                        (#[trigger] out@[k1]).cells@,
                        (#[trigger] out@[k2]).cells@,
                    ),
                forall|t: int, j: int, x: int, y: int|
                    0 <= t < ts.len() && usable(ts[t]@, m) && 0 <= j < 4 && self.free(x, y) && y
                        * 8 + x < pos && #[trigger] fits_with_anchor(*self, orientation(ts[t]@, j as nat), x, y) ==> exists|k: int|
                        0 <= k < out@.len() && same_shape(
                            (#[trigger] out@[k]).cells@,
                            orientation(ts[t]@, j as nat),
                        ),
            decreases 64 - pos,
        {
            let x: usize = pos % 8;
            let y: usize = pos / 8;
            assert(y * 8 + x == pos && y < 8 && x < 8) by (nonlinear_arith)
                requires
                    x == pos % 8,
                    y == pos / 8,
                    pos < 64,
            ;
            if self.get_cell(x, y).is_none() {
                let mut t: usize = 0;
                while t < target_shapes.len()
                    invariant
                        self.wf(),
                        pos < 64,
                        x < 8,
                        y < 8,
                        y * 8 + x == pos,
                        self.free(x as int, y as int),
                        t <= ts.len(),
                        ts == target_shapes@,
                        m == max_cells_to_fill,
                        forall|t: int|
                            0 <= t < ts.len() ==> shiftable((#[trigger] ts[t])@),
                        forall|k: int|
                0 <= k < out@.len() ==> candidate_orientation(ts, m, (#[trigger] out@[k]).cells@)
                    && fits_on_some_empty_cell(*self, out@[k].cells@),
                        forall|k1: int, k2: int|
                            0 <= k1 < k2 < out@.len() ==> !same_shape(
                                (#[trigger] out@[k1]).cells@,
                                (#[trigger] out@[k2]).cells@,
                            ),
                        forall|tt: int, j: int, xx: int, yy: int|
                            0 <= tt < ts.len() && usable(ts[tt]@, m) && 0 <= j < 4 && self.free(
                                xx,
                                yy,
                            ) && (yy * 8 + xx < pos || (xx == x && yy == y && tt < t))
                                && #[trigger] fits_with_anchor(*self, orientation(ts[tt]@, j as nat), xx, yy) ==> exists|k: int|
                                0 <= k < out@.len() && same_shape(
                                    (#[trigger] out@[k]).cells@,
                                    orientation(ts[tt]@, j as nat),
                                ),
                    decreases ts.len() - t,
                {
                    let base = &target_shapes[t];
                    if base.len() > 0 && base.len() <= max_cells_to_fill {
                        let mut cur = copy_cells(base);
                        let mut j: usize = 0;
                        while j < 4
                            invariant
                                self.wf(),
                                pos < 64,
                                x < 8,
                                y < 8,
                                y * 8 + x == pos,
                                self.free(x as int, y as int),
                                t < ts.len(),
                                j <= 4,
                                ts == target_shapes@,
                                m == max_cells_to_fill,
                                usable(ts[t as int]@, m),
                                shiftable(ts[t as int]@),
                                j == 0 ==> cur@ == ts[t as int]@,
                                j > 0 ==> cur@ == rotated(orientation(ts[t as int]@, (j - 1) as nat)),
                                forall|k: int|
                0 <= k < out@.len() ==> candidate_orientation(ts, m, (#[trigger] out@[k]).cells@)
                    && fits_on_some_empty_cell(*self, out@[k].cells@),
                                forall|k1: int, k2: int|
                                    0 <= k1 < k2 < out@.len() ==> !same_shape(
                                        (#[trigger] out@[k1]).cells@,
                                        (#[trigger] out@[k2]).cells@,
                                    ),
                                forall|tt: int, jj: int, xx: int, yy: int|
                                    0 <= tt < ts.len() && usable(ts[tt]@, m) && 0 <= jj < 4
                                        && self.free(xx, yy) && (yy * 8 + xx < pos || (xx == x
                                        && yy == y && (tt < t || (tt == t && jj < j))))
                                        && #[trigger] fits_with_anchor(*self, orientation(ts[tt]@, jj as nat), xx, yy) ==> exists|k: int|
                                        0 <= k < out@.len() && same_shape(
                                            (#[trigger] out@[k]).cells@,
                                            orientation(ts[tt]@, jj as nat),
                                        ),
                            decreases 4 - j,
                        {
                            proof {
                                lemma_orientation(ts[t as int]@, j as nat);
                                if j > 0 {
                                    lemma_orientation(ts[t as int]@, (j - 1) as nat);
                                    lemma_rotated_shiftable(orientation(ts[t as int]@, (j - 1) as nat));
                                }
                            }
                            let norm = normalize_cells(cur);
                            assert(norm@ == orientation(ts[t as int]@, j as nat));
                            if self.fits_some_anchor(&norm, x, y) {
                                if !any_same_shape(&out, &norm) {
                                    let ghost before = out@;
                                    let cells = copy_cells(&norm);
                                    out.push(
                                        BlockShape {
                                            cells,
                                            color: get_random_block_color(),
                                            base_shape_name: "HELPER_SHAPE",
                                        },
                                    );
                                    proof {
                                        let n = out@.len() - 1;
                                        assert forall|k: int| 0 <= k < before.len() implies out@[k] == before[k] by {}
                                        assert(out@[n].cells@ == orientation(ts[t as int]@, j as nat));
                                        assert(same_shape(out@[n].cells@, orientation(ts[t as int]@, j as nat))) by {
                                            assert forall|i: int| 0 <= i < out@[n].cells@.len() implies count_of(out@[n].cells@, #[trigger] out@[n].cells@[i]) == count_of(orientation(ts[t as int]@, j as nat), out@[n].cells@[i]) by {}
                                        }
                                        assert(fits_with_anchor(*self, out@[n].cells@, x as int, y as int));
                                        assert(candidate_orientation(ts, m, out@[n].cells@)) by {
                                            let tt: int = t as int;
                                            let jj: int = j as int;
                                            assert(0 <= tt < ts.len() && usable(ts[tt]@, m) && 0 <= jj < 4
                                                && out@[n].cells@ == orientation(ts[tt]@, jj as nat));
                                        }
                                        assert(fits_on_some_empty_cell(*self, out@[n].cells@)) by {
                                            assert(self.free(x as int, y as int) && fits_with_anchor(*self, out@[n].cells@, x as int, y as int));
                                        }
                                    }
                                }
                            }
                            cur = rotate_90_clockwise(norm.as_slice());
                            j += 1;
                        }
                    }
                    t += 1;
                }
            }
            pos += 1;
        }
        out
    }
}

} // verus!
