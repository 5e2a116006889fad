//! Turn decisions of a play session: which pieces to offer, when the game is
//! over, and what line clears score.
use vstd::prelude::*;
use crate::GameMode;
use crate::generator::{ShapeKind, base_cells, is_mode_piece, shape_cells};
use crate::grid::Grid;
use crate::random::random_below;
use crate::rescue::{
    candidate_orientation,
    fits_on_some_empty_cell,
    orientation,
};
use crate::shape::{BlockShape, shiftable};
use crate::region::{RegionInfo, difficulty_of, is_analysis};
use crate::wave::{WaveManager, help_chance_percent};

verus! {

/// Largest rescue piece, in cells.
pub const RESCUE_MAX_CELLS: usize = 5;

/// Base score for clearing `n` lines in one placement.
pub open spec fn clear_score(n: int) -> int {
    if n <= 0 {
        0
    } else if n == 1 {
        100
    } else if n == 2 {
        300
    } else if n == 3 {
        500
    } else if n == 4 {
        800
    } else {
        800 + (n - 4) * 300
    }
}

/// Base score for clearing `cleared_count` lines in one placement; the caller
/// multiplies it by the combo count.
pub fn line_clear_score(cleared_count: usize) -> (r: u32)
    requires
        clear_score(cleared_count as int) <= u32::MAX,
    ensures
        r == clear_score(cleared_count as int),
{
    if cleared_count == 0 {
        0
    } else if cleared_count == 1 {
        100
    } else if cleared_count == 2 {
        300
    } else if cleared_count == 3 {
        500
    } else if cleared_count == 4 {
        800
    } else {
        800 + (cleared_count as u32 - 4) * 300
    }
}

/// Score and combo after a placement that cleared `cleared` lines: a clear
/// raises the combo by one and adds the base score times the new combo; no
/// clear resets the combo and leaves the score.
pub fn score_after_clears(score: u32, combo: u32, cleared: usize) -> (r: (u32, u32))
    requires
        cleared > 0 ==> combo < u32::MAX && score + clear_score(cleared as int) * (combo + 1)
            <= u32::MAX,
    ensures
        cleared > 0 ==> r.1 == combo + 1 && r.0 == score + clear_score(cleared as int) * (combo
            + 1),
        cleared == 0 ==> r == (score, 0u32),
{
    if cleared == 0 {
        return (score, 0);
    }
    let next = combo + 1;
    proof {
        assert(clear_score(cleared as int) <= clear_score(cleared as int) * (combo + 1)) by (nonlinear_arith)
            requires
                clear_score(cleared as int) >= 0,
                combo + 1 >= 1,
        ;
        assert(clear_score(cleared as int) >= 0);
    }
    let base = line_clear_score(cleared);
    (score + base * next, next)
}

/// Whether no offered piece fits at any origin on the board.
pub fn check_game_over(grid: &Grid, blocks: &Vec<BlockShape>) -> (r: bool)
    requires
        grid.wf(),
    ensures
        r == !exists|b: int, x: int, y: int|
            0 <= b < blocks@.len() && 0 <= x < 8 && 0 <= y < 8 && #[trigger] grid.fits(
                blocks@[b].cells@,
                x,
                y,
            ),
{
    let mut b: usize = 0;
    while b < blocks.len()
        invariant
            grid.wf(),
            b <= blocks@.len(),
            forall|bb: int, x: int, y: int|
                0 <= bb < b && 0 <= x < 8 && 0 <= y < 8 ==> !#[trigger] grid.fits(
                    blocks@[bb].cells@,
                    x,
                    y,
                ),
        decreases blocks@.len() - b,
    {
        let mut y: i32 = 0;
        while y < 8
            invariant
                grid.wf(),
                b < blocks@.len(),
                0 <= y <= 8,
                forall|bb: int, x: int, yy: int|
                    0 <= bb < b && 0 <= x < 8 && 0 <= yy < 8 ==> !#[trigger] grid.fits(
                        blocks@[bb].cells@,
                        x,
                        yy,
                    ),
                forall|x: int, yy: int|
                    0 <= x < 8 && 0 <= yy < y ==> !#[trigger] grid.fits(blocks@[b as int].cells@, x, yy),
            decreases 8 - y,
        {
            let mut x: i32 = 0;
            while x < 8
                invariant
                    grid.wf(),
                    b < blocks@.len(),
                    0 <= y < 8,
                    0 <= x <= 8,
                    forall|bb: int, xx: int, yy: int|
                        0 <= bb < b && 0 <= xx < 8 && 0 <= yy < 8 ==> !#[trigger] grid.fits(
                            blocks@[bb].cells@,
                            xx,
                            yy,
                        ),
                    forall|xx: int, yy: int|
                        0 <= xx < 8 && 0 <= yy < y ==> !#[trigger] grid.fits(blocks@[b as int].cells@, xx, yy),
                    forall|xx: int| 0 <= xx < x ==> !#[trigger] grid.fits(blocks@[b as int].cells@, xx, y as int),
                decreases 8 - x,
            {
                if grid.can_place_block(&blocks[b], x, y) {
                    return false;
                }
                x += 1;
            }
            y += 1;
        }
        b += 1;
    }
    true
}

/// The shapes rescue pieces are taken from: dot, two and three in a row,
/// square, L, T and four in a row.
pub open spec fn rescue_bases() -> Seq<Seq<(i32, i32)>> {
    seq![
        base_cells(ShapeKind::Dot),
        base_cells(ShapeKind::H2),
        base_cells(ShapeKind::H3),
        base_cells(ShapeKind::O),
        base_cells(ShapeKind::L),
        base_cells(ShapeKind::T),
        base_cells(ShapeKind::I),
    ]
}

/// `s` is an orientation of a rescue shape that fits with one of its cells on
/// an empty cell of `g`.
pub open spec fn is_rescue_piece(g: Grid, s: Seq<(i32, i32)>) -> bool {
    &&& exists|t: int, j: int|
        0 <= t < 7 && 0 <= j < 4 && s == #[trigger] orientation(rescue_bases()[t], j as nat)
    &&& fits_on_some_empty_cell(g, s)
}

/// The shapes rescue pieces are taken from, as [`rescue_bases`] lists them.
pub fn rescue_shapes() -> (r: Vec<Vec<(i32, i32)>>)
    ensures
        r@.len() == 7,
        forall|t: int| 0 <= t < 7 ==> (#[trigger] r@[t])@ == rescue_bases()[t],
        forall|t: int| 0 <= t < r@.len() ==> shiftable((#[trigger] r@[t])@),
{
    let mut r: Vec<Vec<(i32, i32)>> = Vec::new();
    r.push(shape_cells(ShapeKind::Dot));
    r.push(shape_cells(ShapeKind::H2));
    r.push(shape_cells(ShapeKind::H3));
    r.push(shape_cells(ShapeKind::O));
    r.push(shape_cells(ShapeKind::L));
    r.push(shape_cells(ShapeKind::T));
    r.push(shape_cells(ShapeKind::I));
    r
}

/// Pieces drawn normally after a rescue piece was (or was not) added.
pub fn normal_block_count(blocks_per_generation: usize, helpful_generated: bool) -> (r: usize)
    ensures
        r == if helpful_generated && blocks_per_generation > 0 {
            blocks_per_generation - 1
        } else if helpful_generated {
            0
        } else {
            blocks_per_generation as int
        },
{
    if helpful_generated {
        if blocks_per_generation > 0 {
            blocks_per_generation - 1
        } else {
            0
        }
    } else {
        blocks_per_generation
    }
}

/// The rescue candidate at `index`, if there is one.
pub fn pick_rescue(candidates: Vec<BlockShape>, index: usize) -> (r: Option<BlockShape>)
    ensures
        r == if index < candidates@.len() {
            Some(candidates@[index as int])
        } else {
            None
        },
{
    let mut candidates = candidates;
    if index < candidates.len() {
        Some(candidates.swap_remove(index))
    } else {
        None
    }
}

/// The offered pieces: the rescue piece, if any, first, then the normally drawn ones.
pub fn offered_blocks(rescue: Option<BlockShape>, normal: Vec<BlockShape>) -> (r: Vec<BlockShape>)
    ensures
        r@ == match rescue {
            Some(b) => seq![b] + normal@,
            None => normal@,
        },
{
    match rescue {
        Some(b) => {
            let mut r: Vec<BlockShape> = Vec::new();
            r.push(b);
            let mut normal = normal;
            let ghost rest = normal@;
            r.append(&mut normal);
            assert(r@ =~= seq![b] + rest);
            r
        },
        None => normal,
    }
}

/// The next set of offered pieces. When the wave grants help and some rescue
/// piece fits, one drawn rescue piece comes first; the rest are drawn from the
/// mode's pool, `blocks_per_generation` pieces in all (at least the rescue
/// piece). When the help chance for the board's difficulty is zero, every
/// piece comes from the pool.
pub fn generate_blocks(grid: &Grid, wave: &WaveManager, mode: GameMode) -> (r: Vec<BlockShape>)
    requires
        grid.wf(),
    ensures
        r@.len() == wave.blocks_per_generation || (wave.blocks_per_generation == 0 && r@.len()
            == 1),
        forall|k: int|
            0 <= k < r@.len() ==> is_mode_piece(mode, #[trigger] r@[k]) || (k == 0
                && is_rescue_piece(*grid, r@[k].cells@)),
        exists|rs: Seq<RegionInfo>|
            is_analysis(*grid, rs) && (help_chance_percent(wave.current_phase, difficulty_of(rs))
                == 0 ==> forall|k: int| 0 <= k < r@.len() ==> is_mode_piece(mode, #[trigger] r@[k])),
{
    let difficulty_score = grid.get_difficulty_score();
    let offer_help = wave.should_offer_helpful_block_v2(difficulty_score);
    let mut rescue: Option<BlockShape> = None;
    if offer_help {
        let shapes = rescue_shapes();
        let candidates = grid.find_placeable_shapes_for_empty_spots(RESCUE_MAX_CELLS, &shapes);
        if candidates.len() > 0 && candidates.len() <= u32::MAX as usize {
            let i = random_below(candidates.len() as u32) as usize;
            proof {
                let c = candidates@[i as int].cells@;
                assert(candidate_orientation(shapes@, RESCUE_MAX_CELLS as int, c));
                let (t, j) = choose|t: int, j: int|
                    0 <= t < shapes@.len() && crate::rescue::usable(shapes@[t]@, RESCUE_MAX_CELLS as int)
                        && 0 <= j < 4 && c == #[trigger] orientation(shapes@[t]@, j as nat);
                assert(shapes@[t]@ == rescue_bases()[t]);
                assert(c == orientation(rescue_bases()[t], j as nat));
            }
            rescue = pick_rescue(candidates, i);
        }
    }
    let n = normal_block_count(wave.blocks_per_generation, rescue.is_some());
    let mut normal: Vec<BlockShape> = Vec::new();
    let mut k: usize = 0;
    while k < n
        invariant
            k <= n,
            normal@.len() == k,
            forall|q: int| 0 <= q < normal@.len() ==> is_mode_piece(mode, #[trigger] normal@[q]),
        decreases n - k,
    {
        normal.push(BlockShape::generate_for_mode(mode));
        k += 1;
    }
    let ghost picked = rescue;
    let ghost drawn = normal@;
    let r = offered_blocks(rescue, normal);
    proof {
        let rs = choose|rs: Seq<RegionInfo>|
            is_analysis(*grid, rs) && difficulty_score == difficulty_of(rs);
        assert(is_analysis(*grid, rs));
        if picked is Some {
            assert forall|k: int| 1 <= k < r@.len() implies r@[k] == drawn[k - 1] by {}
        }
    }
    r
}

} // verus!
