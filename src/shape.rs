//! Polyomino shapes: cell offsets, rotation and normalization.
use vstd::prelude::*;

verus! {

/// An 8-bit RGBA colour; cosmetic only, the board logic never reads it.
#[derive(PartialEq, Eq, Structural, Copy, Clone, Debug)]
pub struct BlockColor {
    pub r: u8,
    pub g: u8,
    pub b: u8,
    pub a: u8,
}

/// A piece: integer cell offsets, a colour and the name of its base shape.
#[derive(Clone, Debug)]
pub struct BlockShape {
    pub cells: Vec<(i32, i32)>,
    pub color: BlockColor,
    pub base_shape_name: &'static str,
}

/// The x coordinate of a cell, or its y coordinate when `vertical` holds.
pub open spec fn coord(c: (i32, i32), vertical: bool) -> int {
    if vertical {
        c.1 as int
    } else {
        c.0 as int
    }
}

/// The least x (or y) coordinate among the cells; 0 for no cells.
pub open spec fn min_coord(s: Seq<(i32, i32)>, vertical: bool) -> int
    decreases s.len(),
{
    if s.len() == 0 {
        0
    } else if s.len() == 1 {
        coord(s[0], vertical)
    } else {
        let m = min_coord(s.drop_last(), vertical);
        if coord(s.last(), vertical) < m {
            coord(s.last(), vertical)
        } else {
            m
        }
    }
}

/// A quarter turn clockwise of every cell: `(x, y)` becomes `(y, -x)`.
pub open spec fn rotated(s: Seq<(i32, i32)>) -> Seq<(i32, i32)> {
    Seq::new(s.len(), |i: int| (s[i].1, (-s[i].0) as i32))
}

/// The cells shifted so that the least x and the least y are both 0.
pub open spec fn normalized(s: Seq<(i32, i32)>) -> Seq<(i32, i32)> {
    Seq::new(
        s.len(),
        |i: int|
            (
                (s[i].0 - min_coord(s, false)) as i32,
                (s[i].1 - min_coord(s, true)) as i32,
            ),
    )
}

/// No coordinate is `i32::MIN`, so each one can be negated.
pub open spec fn negatable(s: Seq<(i32, i32)>) -> bool {
    forall|i: int| 0 <= i < s.len() ==> s[i].0 > i32::MIN && s[i].1 > i32::MIN
}

/// Any two coordinates on one axis differ by at most `i32::MAX`, so shifting
/// by the least one stays in range.
pub open spec fn shiftable(s: Seq<(i32, i32)>) -> bool {
    forall|i: int, j: int|
        0 <= i < s.len() && 0 <= j < s.len() ==> s[i].0 - s[j].0 <= i32::MAX && s[i].1 - s[j].1
            <= i32::MAX
}

/// Every coordinate is non-negative and each axis reaches 0 (or there is no cell).
pub open spec fn is_normalized(s: Seq<(i32, i32)>) -> bool {
    &&& forall|i: int| 0 <= i < s.len() ==> s[i].0 >= 0 && s[i].1 >= 0
    &&& s.len() > 0 ==> (exists|i: int| 0 <= i < s.len() && s[i].0 == 0)
    &&& s.len() > 0 ==> (exists|i: int| 0 <= i < s.len() && s[i].1 == 0)
}

/// The least coordinate is a lower bound and is reached.
pub proof fn lemma_min_coord(s: Seq<(i32, i32)>, vertical: bool)
    requires
        s.len() > 0,
    ensures
        forall|i: int| 0 <= i < s.len() ==> min_coord(s, vertical) <= coord(#[trigger] s[i], vertical),
        exists|i: int| 0 <= i < s.len() && min_coord(s, vertical) == coord(s[i], vertical),
    decreases s.len(),
{
    if s.len() > 1 {
        let t = s.drop_last();
        lemma_min_coord(t, vertical);
        assert forall|i: int| 0 <= i < s.len() implies min_coord(s, vertical) <= coord(
            #[trigger] s[i],
            vertical,
        ) by {
            if i < s.len() - 1 {
                assert(s[i] == t[i]);
            }
        }
        if coord(s.last(), vertical) < min_coord(t, vertical) {
            assert(min_coord(s, vertical) == coord(s[s.len() - 1], vertical));
        } else {
            let k = choose|k: int| 0 <= k < t.len() && min_coord(t, vertical) == coord(t[k], vertical);
            assert(s[k] == t[k]);
        }
    } else {
        assert(min_coord(s, vertical) == coord(s[0], vertical));
    }
}

/// A lower bound that some cell reaches is the least coordinate.
pub proof fn lemma_min_coord_unique(s: Seq<(i32, i32)>, vertical: bool, v: int)
    requires
        forall|i: int| 0 <= i < s.len() ==> v <= coord(#[trigger] s[i], vertical),
        exists|i: int| 0 <= i < s.len() && coord(s[i], vertical) == v,
    ensures
        min_coord(s, vertical) == v,
{
    lemma_min_coord(s, vertical);
    let k = choose|k: int| 0 <= k < s.len() && coord(s[k], vertical) == v;
    let j = choose|j: int| 0 <= j < s.len() && min_coord(s, vertical) == coord(s[j], vertical);
    assert(v <= coord(s[j], vertical));
    assert(min_coord(s, vertical) <= coord(s[k], vertical));
}

/// Normalizing shifts each axis by its least coordinate.
pub proof fn lemma_normalized(s: Seq<(i32, i32)>)
    requires
        shiftable(s),
    ensures
        is_normalized(normalized(s)),
        negatable(normalized(s)),
        shiftable(normalized(s)),
{
    let n = normalized(s);
    if s.len() > 0 {
        lemma_min_coord(s, false);
        lemma_min_coord(s, true);
        let kx = choose|i: int| 0 <= i < s.len() && min_coord(s, false) == coord(s[i], false);
        let ky = choose|i: int| 0 <= i < s.len() && min_coord(s, true) == coord(s[i], true);
        assert(n[kx].0 == 0);
        assert(n[ky].1 == 0);
        assert forall|i: int| 0 <= i < n.len() implies n[i].0 >= 0 && n[i].1 >= 0 by {
            assert(min_coord(s, false) <= coord(s[i], false));
            assert(min_coord(s, true) <= coord(s[i], true));
            assert(s[i].0 - s[kx].0 <= i32::MAX);
            assert(s[i].1 - s[ky].1 <= i32::MAX);
        }
    }
}

/// Normalizing a normalized shape changes nothing.
pub proof fn lemma_normalized_fixed(s: Seq<(i32, i32)>)
    requires
        is_normalized(s),
    ensures
        normalized(s) == s,
{
    if s.len() > 0 {
        lemma_min_coord_unique(s, false, 0);
        lemma_min_coord_unique(s, true, 0);
    }
    assert(normalized(s) =~= s);
}

/// Four quarter turns give back the same cells.
pub proof fn lemma_rotated_four_times(s: Seq<(i32, i32)>)
    requires
        negatable(s),
    ensures
        rotated(rotated(rotated(rotated(s)))) == s,
{
    assert(rotated(rotated(rotated(rotated(s)))) =~= s);
}

/// Rotating a normalized shape four times by a quarter turn and normalizing
/// again gives back the same normalized cells.
pub proof fn lemma_rotation_round_trip(s: Seq<(i32, i32)>)
    requires
        shiftable(s),
    ensures
        normalized(rotated(rotated(rotated(rotated(normalized(s)))))) == normalized(s),
{
    lemma_normalized(s);
    lemma_rotated_four_times(normalized(s));
    lemma_normalized_fixed(normalized(s));
}

/// Turns every cell a quarter turn clockwise: `(x, y)` becomes `(y, -x)`.
pub fn rotate_90_clockwise(cells: &[(i32, i32)]) -> (r: Vec<(i32, i32)>)
    requires
        forall|i: int| 0 <= i < cells@.len() ==> (#[trigger] cells@[i]).0 > i32::MIN,
    ensures
        r@ == rotated(cells@),
{
    let mut r: Vec<(i32, i32)> = Vec::new();
    let mut i: usize = 0;
    while i < cells.len()
        invariant
            i <= cells@.len(),
            forall|k: int| 0 <= k < cells@.len() ==> (#[trigger] cells@[k]).0 > i32::MIN,
            r@ == rotated(cells@).take(i as int),
        decreases cells@.len() - i,
    {
        let (x, y) = cells[i];
        r.push((y, -x));
        i += 1;
        assert(r@ =~= rotated(cells@).take(i as int));
    }
    assert(r@ =~= rotated(cells@));
    r
}

/// Shifts the cells so that the least x and the least y are both 0.
pub fn normalize_cells(cells: Vec<(i32, i32)>) -> (r: Vec<(i32, i32)>)
    requires
        shiftable(cells@),
    ensures
        r@ == normalized(cells@),
        is_normalized(r@),
{
    proof {
        lemma_normalized(cells@);
    }
    if cells.len() == 0 {
        assert(cells@ =~= normalized(cells@));
        return cells;
    }
    let s = Ghost(cells@);
    let mut min_x: i32 = cells[0].0;
    let mut min_y: i32 = cells[0].1;
    let mut i: usize = 1;
    while i < cells.len()
        invariant
            1 <= i <= s@.len(),
            s@ == cells@,
            min_x == min_coord(s@.take(i as int), false),
            min_y == min_coord(s@.take(i as int), true),
        decreases s@.len() - i,
    {
        proof {
            assert(s@.take(i as int + 1).drop_last() =~= s@.take(i as int));
        }
        let (x, y) = cells[i];
        if x < min_x {
            min_x = x;
        }
        if y < min_y {
            min_y = y;
        }
        i += 1;
    }
    assert(s@.take(i as int) =~= s@);
    let mut r: Vec<(i32, i32)> = Vec::new();
    let mut j: usize = 0;
    while j < cells.len()
        invariant
            j <= s@.len(),
            s@ == cells@,
            shiftable(s@),
            s@.len() > 0,
            min_x == min_coord(s@, false),
            min_y == min_coord(s@, true),
            r@ == normalized(s@).take(j as int),
        decreases s@.len() - j,
    {
        let (x, y) = cells[j];
        proof {
            lemma_min_coord(s@, false);
            lemma_min_coord(s@, true);
            let kx = choose|k: int| 0 <= k < s@.len() && min_coord(s@, false) == coord(s@[k], false);
            let ky = choose|k: int| 0 <= k < s@.len() && min_coord(s@, true) == coord(s@[k], true);
            assert(s@[j as int].0 - s@[kx].0 <= i32::MAX);
            assert(s@[j as int].1 - s@[ky].1 <= i32::MAX);
            assert(min_coord(s@, false) <= coord(s@[j as int], false));
            assert(min_coord(s@, true) <= coord(s@[j as int], true));
        }
        r.push((x - min_x, y - min_y));
        j += 1;
        assert(r@ =~= normalized(s@).take(j as int));
    }
    assert(r@ =~= normalized(s@));
    r
}

} // verus!
