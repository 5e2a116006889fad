//! Weighted random piece generation from the shape pools of each mode.
use vstd::prelude::*;
use crate::GameMode;
use crate::random::random_below;
use crate::shape::{
    BlockColor,
    BlockShape,
    normalize_cells,
    normalized,
    rotate_90_clockwise,
    rotated,
};

verus! {

/// The base shapes pieces are drawn from.
#[derive(PartialEq, Eq, Structural, Copy, Clone, Debug)]
pub enum ShapeKind {
    Dot,
    H2,
    LSmall,
    Diagonal,
    H3,
    I,
    O,
    L,
    T,
    Z,
    Cross,
    Rect2x3,
    Square3x3,
    LLarge,
    Stair,
}

/// The cell offsets of each base shape.
pub open spec fn base_cells(k: ShapeKind) -> Seq<(i32, i32)> {
    match k {
        ShapeKind::Dot => seq![(0i32, 0i32)],
        ShapeKind::H2 => seq![(0i32, 0i32), (1, 0)],
        ShapeKind::LSmall => seq![(0i32, 0i32), (1, 0), (1, 1)],
        ShapeKind::Diagonal => seq![(0i32, 0i32), (1, 1)],
        ShapeKind::H3 => seq![(0i32, 0i32), (1, 0), (2, 0)],
        ShapeKind::I => seq![(0i32, 0i32), (1, 0), (2, 0), (3, 0)],
        ShapeKind::O => seq![(0i32, 0i32), (1, 0), (0, 1), (1, 1)],
        ShapeKind::L => seq![(0i32, 0i32), (0, 1), (0, 2), (1, 2)],
        ShapeKind::T => seq![(0i32, 0i32), (1, 0), (2, 0), (1, 1)],
        ShapeKind::Z => seq![(0i32, 0i32), (1, 0), (1, 1), (2, 1)],
        ShapeKind::Cross => seq![(1i32, 0i32), (0, 1), (1, 1), (2, 1), (1, 2)],
        ShapeKind::Rect2x3 => seq![(0i32, 0i32), (1, 0), (0, 1), (1, 1), (0, 2), (1, 2)],
        ShapeKind::Square3x3 => seq![
            (0i32, 0i32),
            (1, 0),
            (2, 0),
            (0, 1),
            (1, 1),
            (2, 1),
            (0, 2),
            (1, 2),
            (2, 2),
        ],
        ShapeKind::LLarge => seq![(0i32, 0i32), (0, 1), (0, 2), (1, 0), (2, 0)],
        ShapeKind::Stair => seq![(0i32, 0i32), (1, 0), (0, 1), (1, 1), (2, 1)],
    }
}

/// Every coordinate lies in `[-b, b]`.
pub open spec fn bounded(s: Seq<(i32, i32)>, b: int) -> bool {
    forall|i: int| 0 <= i < s.len() ==> -b <= (#[trigger] s[i]).0 <= b && -b <= s[i].1 <= b
}

/// `n` quarter turns clockwise.
pub open spec fn rotated_times(s: Seq<(i32, i32)>, n: nat) -> Seq<(i32, i32)>
    decreases n,
{
    if n == 0 {
        s
    } else {
        rotated(rotated_times(s, (n - 1) as nat))
    }
}

/// The cells of base shape `k` turned `n` times and normalized.
pub open spec fn piece_cells(k: ShapeKind, n: nat) -> Seq<(i32, i32)> {
    normalized(rotated_times(base_cells(k), n))
}

proof fn lemma_rotated_bounded(s: Seq<(i32, i32)>, n: nat)
    requires
        bounded(s, 3),
    ensures
        bounded(rotated_times(s, n), 3),
        rotated_times(s, n).len() == s.len(),
    decreases n,
{
    if n > 0 {
        lemma_rotated_bounded(s, (n - 1) as nat);
    }
}

/// The cell offsets of base shape `k`.
pub fn shape_cells(k: ShapeKind) -> (r: Vec<(i32, i32)>)
    ensures
        r@ == base_cells(k),
        bounded(r@, 3),
{
    let r = match k {
        ShapeKind::Dot => vec![(0i32, 0i32)],
        ShapeKind::H2 => vec![(0i32, 0i32), (1, 0)],
        ShapeKind::LSmall => vec![(0i32, 0i32), (1, 0), (1, 1)],
        ShapeKind::Diagonal => vec![(0i32, 0i32), (1, 1)],
        ShapeKind::H3 => vec![(0i32, 0i32), (1, 0), (2, 0)],
        ShapeKind::I => vec![(0i32, 0i32), (1, 0), (2, 0), (3, 0)],
        ShapeKind::O => vec![(0i32, 0i32), (1, 0), (0, 1), (1, 1)],
        ShapeKind::L => vec![(0i32, 0i32), (0, 1), (0, 2), (1, 2)],
        ShapeKind::T => vec![(0i32, 0i32), (1, 0), (2, 0), (1, 1)],
        ShapeKind::Z => vec![(0i32, 0i32), (1, 0), (1, 1), (2, 1)],
        ShapeKind::Cross => vec![(1i32, 0i32), (0, 1), (1, 1), (2, 1), (1, 2)],
        ShapeKind::Rect2x3 => vec![(0i32, 0i32), (1, 0), (0, 1), (1, 1), (0, 2), (1, 2)],
        ShapeKind::Square3x3 => vec![
            (0i32, 0i32),
            (1, 0),
            (2, 0),
            (0, 1),
            (1, 1),
            (2, 1),
            (0, 2),
            (1, 2),
            (2, 2),
        ],
        ShapeKind::LLarge => vec![(0i32, 0i32), (0, 1), (0, 2), (1, 0), (2, 0)],
        ShapeKind::Stair => vec![(0i32, 0i32), (1, 0), (0, 1), (1, 1), (2, 1)],
    };
    assert(r@ =~= base_cells(k));
    r
}

/// The telemetry name of each base shape.
pub open spec fn shape_name_spec(k: ShapeKind) -> Seq<char> {
    match k {
        ShapeKind::Dot => "SHAPE_DOT"@,
        ShapeKind::H2 => "SHAPE_H2"@,
        ShapeKind::LSmall => "SHAPE_L_SMALL"@,
        ShapeKind::Diagonal => "SHAPE_DG"@,
        ShapeKind::H3 => "SHAPE_H3"@,
        ShapeKind::I => "SHAPE_I"@,
        ShapeKind::O => "SHAPE_O"@,
        ShapeKind::L => "SHAPE_L"@,
        ShapeKind::T => "SHAPE_T"@,
        ShapeKind::Z => "SHAPE_Z"@,
        ShapeKind::Cross => "SHAPE_CROSS"@,
        ShapeKind::Rect2x3 => "SHAPE_RECT_2X3"@,
        ShapeKind::Square3x3 => "SHAPE_SQUARE_3X3"@,
        ShapeKind::LLarge => "SHAPE_L_LARGE"@,
        ShapeKind::Stair => "SHAPE_STAIR"@,
    }
}

/// The telemetry name of base shape `k`.
pub fn shape_name(k: ShapeKind) -> (r: &'static str)
    ensures
        r@ == shape_name_spec(k),
{
    proof {
        reveal_strlit("SHAPE_DOT");
        reveal_strlit("SHAPE_H2");
        reveal_strlit("SHAPE_L_SMALL");
        reveal_strlit("SHAPE_DG");
        reveal_strlit("SHAPE_H3");
        reveal_strlit("SHAPE_I");
        reveal_strlit("SHAPE_O");
        reveal_strlit("SHAPE_L");
        reveal_strlit("SHAPE_T");
        reveal_strlit("SHAPE_Z");
        reveal_strlit("SHAPE_CROSS");
        reveal_strlit("SHAPE_RECT_2X3");
        reveal_strlit("SHAPE_SQUARE_3X3");
        reveal_strlit("SHAPE_L_LARGE");
        reveal_strlit("SHAPE_STAIR");
    }
    match k {
        ShapeKind::Dot => "SHAPE_DOT",
        ShapeKind::H2 => "SHAPE_H2",
        ShapeKind::LSmall => "SHAPE_L_SMALL",
        ShapeKind::Diagonal => "SHAPE_DG",
        ShapeKind::H3 => "SHAPE_H3",
        ShapeKind::I => "SHAPE_I",
        ShapeKind::O => "SHAPE_O",
        ShapeKind::L => "SHAPE_L",
        ShapeKind::T => "SHAPE_T",
        ShapeKind::Z => "SHAPE_Z",
        ShapeKind::Cross => "SHAPE_CROSS",
        ShapeKind::Rect2x3 => "SHAPE_RECT_2X3",
        ShapeKind::Square3x3 => "SHAPE_SQUARE_3X3",
        ShapeKind::LLarge => "SHAPE_L_LARGE",
        ShapeKind::Stair => "SHAPE_STAIR",
    }
}

/// Turns the cells `n` times and normalizes them.
pub fn turned_piece_cells(k: ShapeKind, n: u32) -> (r: Vec<(i32, i32)>)
    ensures
        r@ == piece_cells(k, n as nat),
{
    let mut cur = shape_cells(k);
    let ghost base = cur@;
    let mut i: u32 = 0;
    while i < n
        invariant
            i <= n,
            base == base_cells(k),
            bounded(base, 3),
            cur@ == rotated_times(base, i as nat),
        decreases n - i,
    {
        proof {
            lemma_rotated_bounded(base, i as nat);
        }
        cur = rotate_90_clockwise(cur.as_slice());
        i += 1;
    }
    proof {
        lemma_rotated_bounded(base, n as nat);
    }
    normalize_cells(cur)
}

/// The palette of piece colours.
pub open spec fn palette(i: int) -> BlockColor {
    if i == 0 {
        BlockColor { r: 235, g: 177, b: 67, a: 255 }
    } else if i == 1 {
        BlockColor { r: 212, g: 59, b: 54, a: 255 }
    } else if i == 2 {
        BlockColor { r: 68, g: 96, b: 223, a: 255 }
    } else if i == 3 {
        BlockColor { r: 141, g: 94, b: 208, a: 255 }
    } else if i == 4 {
        BlockColor { r: 62, g: 181, b: 224, a: 255 }
    } else if i == 5 {
        BlockColor { r: 71, g: 185, b: 71, a: 255 }
    } else {
        BlockColor { r: 227, g: 95, b: 57, a: 255 }
    }
}

/// Number of palette colours.
pub const PALETTE_SIZE: u32 = 7;

/// Palette colour `i`.
pub fn block_color_from_index(i: u32) -> (r: BlockColor)
    requires
        i < PALETTE_SIZE,
    ensures
        r == palette(i as int),
{
    if i == 0 {
        BlockColor { r: 235, g: 177, b: 67, a: 255 }
    } else if i == 1 {
        BlockColor { r: 212, g: 59, b: 54, a: 255 }
    } else if i == 2 {
        BlockColor { r: 68, g: 96, b: 223, a: 255 }
    } else if i == 3 {
        BlockColor { r: 141, g: 94, b: 208, a: 255 }
    } else if i == 4 {
        BlockColor { r: 62, g: 181, b: 224, a: 255 }
    } else if i == 5 {
        BlockColor { r: 71, g: 185, b: 71, a: 255 }
    } else {
        BlockColor { r: 227, g: 95, b: 57, a: 255 }
    }
}

/// A colour drawn from the palette.
pub fn get_random_block_color() -> (r: BlockColor)
    ensures
        exists|i: int| 0 <= i < PALETTE_SIZE && r == #[trigger] palette(i),
{
    let i = random_below(PALETTE_SIZE);
    block_color_from_index(i)
}

/// A base shape with its selection weight.
#[derive(PartialEq, Eq, Structural, Copy, Clone, Debug)]
pub struct WeightedShape {
    pub shape: ShapeKind,
    pub weight: u64,
}

/// The shape pool of each mode.
pub open spec fn pool_spec(mode: GameMode) -> Seq<WeightedShape> {
    match mode {
        GameMode::Easy => seq![
            WeightedShape { shape: ShapeKind::Dot, weight: 3 },
            WeightedShape { shape: ShapeKind::H2, weight: 5 },
            WeightedShape { shape: ShapeKind::O, weight: 10 },
            WeightedShape { shape: ShapeKind::I, weight: 8 },
            WeightedShape { shape: ShapeKind::H3, weight: 7 },
            WeightedShape { shape: ShapeKind::L, weight: 9 },
            WeightedShape { shape: ShapeKind::T, weight: 9 },
            WeightedShape { shape: ShapeKind::Z, weight: 8 },
            WeightedShape { shape: ShapeKind::Stair, weight: 5 },
            WeightedShape { shape: ShapeKind::LLarge, weight: 4 },
            WeightedShape { shape: ShapeKind::Cross, weight: 3 },
            WeightedShape { shape: ShapeKind::Rect2x3, weight: 4 },
            WeightedShape { shape: ShapeKind::Square3x3, weight: 3 },
        ],
        GameMode::Normal => seq![
            WeightedShape { shape: ShapeKind::Dot, weight: 2 },
            WeightedShape { shape: ShapeKind::H2, weight: 5 },
            WeightedShape { shape: ShapeKind::LSmall, weight: 2 },
            WeightedShape { shape: ShapeKind::O, weight: 32 },
            WeightedShape { shape: ShapeKind::I, weight: 25 },
            WeightedShape { shape: ShapeKind::H3, weight: 25 },
            WeightedShape { shape: ShapeKind::L, weight: 24 },
            WeightedShape { shape: ShapeKind::T, weight: 10 },
            WeightedShape { shape: ShapeKind::Z, weight: 1 },
            WeightedShape { shape: ShapeKind::Stair, weight: 4 },
            WeightedShape { shape: ShapeKind::LLarge, weight: 20 },
            WeightedShape { shape: ShapeKind::Cross, weight: 1 },
            WeightedShape { shape: ShapeKind::Rect2x3, weight: 11 },
            WeightedShape { shape: ShapeKind::Square3x3, weight: 2 },
        ],
        GameMode::Happy => seq![
            WeightedShape { shape: ShapeKind::Dot, weight: 2 },
            WeightedShape { shape: ShapeKind::H2, weight: 5 },
            WeightedShape { shape: ShapeKind::O, weight: 10 },
            WeightedShape { shape: ShapeKind::I, weight: 10 },
            WeightedShape { shape: ShapeKind::H3, weight: 6 },
            WeightedShape { shape: ShapeKind::L, weight: 8 },
            WeightedShape { shape: ShapeKind::T, weight: 2 },
            WeightedShape { shape: ShapeKind::Z, weight: 2 },
        ],
    }
}

/// `b` is what a draw from `e` gives: the base shape some roll in `[0, W)`
/// picks, turned 0 to 3 times and normalized, named after that base shape.
pub open spec fn drawn_from(e: Seq<WeightedShape>, b: BlockShape) -> bool {
    exists|roll: int, n: int, i: int|
        0 <= roll < total_weight(e) && 0 <= n < 4 && #[trigger] selects(e, roll, i) && b.cells@
            == #[trigger] piece_cells(e[i].shape, n as nat) && b.base_shape_name@
            == shape_name_spec(e[i].shape)
}

/// `b` is a piece drawn from the pool of `mode`.
pub open spec fn is_mode_piece(mode: GameMode, b: BlockShape) -> bool {
    drawn_from(pool_spec(mode), b)
}

/// The shape pool of `mode`.
pub fn pool(mode: GameMode) -> (r: Vec<WeightedShape>)
    ensures
        r@ == pool_spec(mode),
{
    let r = match mode {
        GameMode::Easy => vec![
            WeightedShape { shape: ShapeKind::Dot, weight: 3 },
            WeightedShape { shape: ShapeKind::H2, weight: 5 },
            WeightedShape { shape: ShapeKind::O, weight: 10 },
            WeightedShape { shape: ShapeKind::I, weight: 8 },
            WeightedShape { shape: ShapeKind::H3, weight: 7 },
            WeightedShape { shape: ShapeKind::L, weight: 9 },
            WeightedShape { shape: ShapeKind::T, weight: 9 },
            WeightedShape { shape: ShapeKind::Z, weight: 8 },
            WeightedShape { shape: ShapeKind::Stair, weight: 5 },
            WeightedShape { shape: ShapeKind::LLarge, weight: 4 },
            WeightedShape { shape: ShapeKind::Cross, weight: 3 },
            WeightedShape { shape: ShapeKind::Rect2x3, weight: 4 },
            WeightedShape { shape: ShapeKind::Square3x3, weight: 3 },
        ],
        GameMode::Normal => vec![
            WeightedShape { shape: ShapeKind::Dot, weight: 2 },
            WeightedShape { shape: ShapeKind::H2, weight: 5 },
            WeightedShape { shape: ShapeKind::LSmall, weight: 2 },
            WeightedShape { shape: ShapeKind::O, weight: 32 },
            WeightedShape { shape: ShapeKind::I, weight: 25 },
            WeightedShape { shape: ShapeKind::H3, weight: 25 },
            WeightedShape { shape: ShapeKind::L, weight: 24 },
            WeightedShape { shape: ShapeKind::T, weight: 10 },
            WeightedShape { shape: ShapeKind::Z, weight: 1 },
            WeightedShape { shape: ShapeKind::Stair, weight: 4 },
            WeightedShape { shape: ShapeKind::LLarge, weight: 20 },
            WeightedShape { shape: ShapeKind::Cross, weight: 1 },
            WeightedShape { shape: ShapeKind::Rect2x3, weight: 11 },
            WeightedShape { shape: ShapeKind::Square3x3, weight: 2 },
        ],
        GameMode::Happy => vec![
            WeightedShape { shape: ShapeKind::Dot, weight: 2 },
            WeightedShape { shape: ShapeKind::H2, weight: 5 },
            WeightedShape { shape: ShapeKind::O, weight: 10 },
            WeightedShape { shape: ShapeKind::I, weight: 10 },
            WeightedShape { shape: ShapeKind::H3, weight: 6 },
            WeightedShape { shape: ShapeKind::L, weight: 8 },
            WeightedShape { shape: ShapeKind::T, weight: 2 },
            WeightedShape { shape: ShapeKind::Z, weight: 2 },
        ],
    };
    assert(r@ =~= pool_spec(mode));
    r
}

/// Sum of the first `i` weights.
pub open spec fn prefix_weight(e: Seq<WeightedShape>, i: int) -> int
    decreases i,
{
    if i <= 0 || e.len() == 0 {
        0
    } else {
        prefix_weight(e, i - 1) + e[i - 1].weight
    }
}

/// Sum of all weights.
pub open spec fn total_weight(e: Seq<WeightedShape>) -> int {
    prefix_weight(e, e.len() as int)
}

/// A roll picks entry `i` when it falls in `[prefix(i), prefix(i + 1))`.
pub open spec fn selects(e: Seq<WeightedShape>, roll: int, i: int) -> bool {
    0 <= i < e.len() && prefix_weight(e, i) <= roll < prefix_weight(e, i + 1)
}

proof fn lemma_prefix_monotone(e: Seq<WeightedShape>, i: int, j: int)
    requires
        0 <= i <= j <= e.len(),
    ensures
        prefix_weight(e, i) <= prefix_weight(e, j),
    decreases j - i,
{
    if i < j {
        lemma_prefix_monotone(e, i, j - 1);
    }
}

proof fn lemma_select_exists(e: Seq<WeightedShape>, roll: int, k: int)
    requires
        0 <= k < e.len(),
        prefix_weight(e, k) <= roll < total_weight(e),
    ensures
        exists|i: int| k <= i && #[trigger] selects(e, roll, i),
    decreases e.len() - k,
{
    if roll < prefix_weight(e, k + 1) {
        assert(selects(e, roll, k));
    } else {
        if k + 1 == e.len() {
            assert(false);
        }
        lemma_select_exists(e, roll, k + 1);
        let i = choose|i: int| k + 1 <= i && #[trigger] selects(e, roll, i);
        assert(k <= i);
    }
}

/// Each roll in `[0, W)`, `W` the total weight, picks exactly one entry, and
/// entry `i` is picked by exactly `weight(i)` of the `W` rolls: those in
/// `[prefix(i), prefix(i) + weight(i))`. Drawn uniformly, entry `i` therefore
/// comes with probability `weight(i) / W`.
pub proof fn lemma_weighted_sampling(e: Seq<WeightedShape>, roll: int, i: int)
    requires
        0 <= roll < total_weight(e),
        0 <= i < e.len(),
    ensures
        exists|j: int| #[trigger] selects(e, roll, j),
        forall|j: int, k: int| selects(e, roll, j) && selects(e, roll, k) ==> j == k,
        selects(e, roll, i) <==> prefix_weight(e, i) <= roll < prefix_weight(e, i) + e[i].weight,
        0 <= prefix_weight(e, i),
        prefix_weight(e, i) + e[i].weight <= total_weight(e),
{
    lemma_select_exists(e, roll, 0);
    assert forall|j: int, k: int| selects(e, roll, j) && selects(e, roll, k) implies j == k by {
        if j < k {
            lemma_prefix_monotone(e, j + 1, k);
        } else if k < j {
            lemma_prefix_monotone(e, k + 1, j);
        }
    }
    lemma_prefix_monotone(e, 0, i);
    lemma_prefix_monotone(e, i + 1, e.len() as int);
}

/// The entry a roll picks: the first whose running total exceeds the roll.
pub fn select_weighted_index(entries: &Vec<WeightedShape>, roll: u64) -> (r: usize)
    requires
        roll < total_weight(entries@),
        total_weight(entries@) <= u64::MAX,
    ensures
        selects(entries@, roll as int, r as int),
{
    let mut acc: u64 = 0;
    let mut i: usize = 0;
    while i < entries.len()
        invariant
            i <= entries@.len(),
            acc == prefix_weight(entries@, i as int),
            acc <= roll,
            roll < total_weight(entries@),
            total_weight(entries@) <= u64::MAX,
        decreases entries@.len() - i,
    {
        proof {
            lemma_prefix_monotone(entries@, i as int + 1, entries@.len() as int);
        }
        let next = acc + entries[i].weight;
        if roll < next {
            return i;
        }
        acc = next;
        i += 1;
    }
    i
}

/// Sum of all weights.
pub fn sum_weights(entries: &Vec<WeightedShape>) -> (r: u64)
    requires
        total_weight(entries@) <= u64::MAX,
    ensures
        r == total_weight(entries@),
{
    let mut acc: u64 = 0;
    let mut i: usize = 0;
    while i < entries.len()
        invariant
            i <= entries@.len(),
            total_weight(entries@) <= u64::MAX,
            acc == prefix_weight(entries@, i as int),
        decreases entries@.len() - i,
    {
        proof {
            lemma_prefix_monotone(entries@, i as int + 1, entries@.len() as int);
        }
        acc = acc + entries[i].weight;
        i += 1;
    }
    acc
}

/// The piece for a roll in `[0, W)` over `entries`, `rotations` quarter
/// turns and a colour: the picked base shape, turned and normalized.
pub fn piece_for_roll(entries: &Vec<WeightedShape>, roll: u64, rotations: u32, color: BlockColor) -> (r: BlockShape)
    requires
        roll < total_weight(entries@),
        total_weight(entries@) <= u64::MAX,
    ensures
        exists|i: int|
            #[trigger] selects(entries@, roll as int, i) && r.cells@ == piece_cells(
                entries@[i].shape,
                rotations as nat,
            ) && r.base_shape_name@ == shape_name_spec(entries@[i].shape),
        r.color == color,
{
    let i = select_weighted_index(entries, roll);
    let shape = entries[i].shape;
    BlockShape { cells: turned_piece_cells(shape, rotations), color, base_shape_name: shape_name(shape) }
}

/// Draws from `entries`: a roll in `[0, W)`, 0 to 3 quarter turns and a palette
/// colour; the dot when the total weight is 0 or does not fit a 32-bit draw.
fn draw_piece(entries: &Vec<WeightedShape>) -> (r: BlockShape)
    requires
        total_weight(entries@) <= u64::MAX,
    ensures
        total_weight(entries@) == 0 ==> r.cells@ == base_cells(ShapeKind::Dot)
            && r.base_shape_name@ == shape_name_spec(ShapeKind::Dot),
        0 < total_weight(entries@) <= u32::MAX ==> drawn_from(entries@, r),
        exists|c: int| 0 <= c < PALETTE_SIZE && r.color == #[trigger] palette(c),
{
    let total = sum_weights(entries);
    if total == 0 || total > u32::MAX as u64 {
        return BlockShape::new_dot();
    }
    let roll = random_below(total as u32);
    let rotations = random_below(4);
    let color = get_random_block_color();
    let r = piece_for_roll(entries, roll as u64, rotations, color);
    proof {
        let i = choose|i: int|
            #[trigger] selects(entries@, roll as int, i) && r.cells@ == piece_cells(
                entries@[i].shape,
                rotations as nat,
            ) && r.base_shape_name@ == shape_name_spec(entries@[i].shape);
        let n = rotations as int;
        assert(selects(entries@, roll as int, i) && r.cells@ == piece_cells(
            entries@[i].shape,
            n as nat,
        ));
    }
    r
}

impl BlockShape {
    /// The single-cell piece in a palette colour.
    pub fn new_dot() -> (r: BlockShape)
        ensures
            r.cells@ == base_cells(ShapeKind::Dot),
            r.base_shape_name@ == shape_name_spec(ShapeKind::Dot),
            exists|i: int| 0 <= i < PALETTE_SIZE && r.color == #[trigger] palette(i),
    {
        BlockShape {
            cells: shape_cells(ShapeKind::Dot),
            color: get_random_block_color(),
            base_shape_name: shape_name(ShapeKind::Dot),
        }
    }

    /// A piece drawn from the pool of `mode`: weighted base shape, 0 to 3
    /// quarter turns, normalized, in a palette colour.
    pub fn generate_for_mode(mode: GameMode) -> (r: BlockShape)
        ensures
            is_mode_piece(mode, r),
            exists|c: int| 0 <= c < PALETTE_SIZE && r.color == #[trigger] palette(c),
    {
        let entries = pool(mode);
        assert(total_weight(entries@) > 0 && total_weight(entries@) <= u32::MAX) by {
            reveal_with_fuel(prefix_weight, 15);
        }
        draw_piece(&entries)
    }

    /// A piece drawn from all three pools blended by `complexity` (in 600ths,
    /// clamped to 600): easy weights scaled by `(1 - c)^2`, normal by
    /// `1 - |2c - 1|`, happy by `c^2`; then turned and coloured as in
    /// [`BlockShape::generate_for_mode`].
    pub fn generate_with_complexity(complexity: u32) -> (r: BlockShape)
        ensures
            total_weight(blended_pool(complexity as int)) == 0 ==> r.cells@ == base_cells(
                ShapeKind::Dot,
            ) && r.base_shape_name@ == shape_name_spec(ShapeKind::Dot),
            total_weight(blended_pool(complexity as int)) > 0 ==> drawn_from(
                blended_pool(complexity as int),
                r,
            ),
            exists|c: int| 0 <= c < PALETTE_SIZE && r.color == #[trigger] palette(c),
    {
        let entries = blended_pool_for(complexity);
        proof {
            lemma_prefix_bound(entries@, entries@.len() as int, 32 * 360000int);
            assert(entries@.len() * (32 * 360000int) <= 64 * (32 * 360000int)) by (nonlinear_arith)
                requires
                    entries@.len() <= 64,
            ;
        }
        draw_piece(&entries)
    }
}

/// The pool weights scaled by `f`.
pub open spec fn scaled(p: Seq<WeightedShape>, f: int) -> Seq<WeightedShape> {
    Seq::new(p.len(), |i: int| WeightedShape { shape: p[i].shape, weight: (p[i].weight * f) as u64 })
}

/// `complexity` clamped to `[0, 600]`.
pub open spec fn clamp_complexity(c: int) -> int {
    if c > 600 {
        600
    } else {
        c
    }
}

/// All three pools, weighted for complexity `c` (in 600ths), scaled by 600²:
/// easy by `(600 - c)^2`, normal by `600 * (600 - |2c - 600|)`, happy by `c^2`.
pub open spec fn blended_pool(c: int) -> Seq<WeightedShape> {
    let k = clamp_complexity(c);
    let d = if 2 * k >= 600 {
        2 * k - 600
    } else {
        600 - 2 * k
    };
    scaled(pool_spec(GameMode::Easy), (600 - k) * (600 - k)) + scaled(
        pool_spec(GameMode::Normal),
        600 * (600 - d),
    ) + scaled(pool_spec(GameMode::Happy), k * k)
}

proof fn lemma_prefix_bound(e: Seq<WeightedShape>, i: int, b: int)
    requires
        0 <= i <= e.len(),
        forall|j: int| 0 <= j < e.len() ==> (#[trigger] e[j]).weight <= b,
    ensures
        prefix_weight(e, i) <= i * b,
    decreases i,
{
    if i > 0 {
        lemma_prefix_bound(e, i - 1, b);
        assert(e[i - 1].weight <= b);
        assert(prefix_weight(e, i) == prefix_weight(e, i - 1) + e[i - 1].weight);
        assert((i - 1) * b + b == i * b) by (nonlinear_arith);
    } else {
        assert(i * b == 0) by (nonlinear_arith)
            requires
                i == 0,
        ;
    }
}

fn append_scaled(r: &mut Vec<WeightedShape>, p: &Vec<WeightedShape>, f: u64)
    requires
        f <= 360000,
        forall|j: int| 0 <= j < p@.len() ==> (#[trigger] p@[j]).weight <= 32,
    ensures
        final(r)@ == old(r)@ + scaled(p@, f as int),
{
    let ghost start = r@;
    let mut i: usize = 0;
    while i < p.len()
        invariant
            i <= p@.len(),
            f <= 360000,
            forall|j: int| 0 <= j < p@.len() ==> (#[trigger] p@[j]).weight <= 32,
            r@ == start + scaled(p@, f as int).take(i as int),
        decreases p@.len() - i,
    {
        let e = p[i];
        assert(e.weight * f <= 32 * 360000) by (nonlinear_arith)
            requires
                e.weight <= 32,
                f <= 360000,
        ;
        r.push(WeightedShape { shape: e.shape, weight: e.weight * f });
        i += 1;
        assert(r@ =~= start + scaled(p@, f as int).take(i as int));
    }
    assert(scaled(p@, f as int).take(i as int) =~= scaled(p@, f as int));
}

/// The blended pool for `complexity` (in 600ths).
pub fn blended_pool_for(complexity: u32) -> (r: Vec<WeightedShape>)
    ensures
        r@ == blended_pool(complexity as int),
        r@.len() <= 64,
        forall|j: int| 0 <= j < r@.len() ==> (#[trigger] r@[j]).weight <= 32 * 360000,
{
    let k: u64 = if complexity > 600 {
        600
    } else {
        complexity as u64
    };
    let d: u64 = if 2 * k >= 600 {
        2 * k - 600
    } else {
        600 - 2 * k
    };
    let easy = pool(GameMode::Easy);
    let normal = pool(GameMode::Normal);
    let happy = pool(GameMode::Happy);
    let mut r: Vec<WeightedShape> = Vec::new();
    assert(k * k <= 360000 && (600 - k) * (600 - k) <= 360000) by (nonlinear_arith)
        requires
            k <= 600,
    ;
    append_scaled(&mut r, &easy, (600 - k) * (600 - k));
    append_scaled(&mut r, &normal, 600 * (600 - d));
    append_scaled(&mut r, &happy, k * k);
    assert(r@ =~= blended_pool(complexity as int));
    proof {
        assert forall|j: int| 0 <= j < r@.len() implies (#[trigger] r@[j]).weight <= 32 * 360000 by {
            let el = easy@.len() as int;
            let nl = normal@.len() as int;
            if j < el {
                assert((easy@[j].weight * ((600 - k) * (600 - k))) <= 32 * 360000) by (nonlinear_arith)
                    requires
                        easy@[j].weight <= 32,
                        (600 - k) * (600 - k) <= 360000,
                ;
            } else if j < el + nl {
                assert((normal@[j - el].weight * (600 * (600 - d))) <= 32 * 360000) by (nonlinear_arith)
                    requires
                        normal@[j - el].weight <= 32,
                        d <= 600,
                ;
            } else {
                assert((happy@[j - el - nl].weight * (k * k)) <= 32 * 360000) by (nonlinear_arith)
                    requires
                        happy@[j - el - nl].weight <= 32,
                        k * k <= 360000,
                ;
            }
        }
    }
    r
}

} // verus!
