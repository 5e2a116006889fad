use block_puzzle::generator::shape_cells;
use block_puzzle::generator::ShapeKind;
use block_puzzle::grid::Grid;
use block_puzzle::log::LogLevel;
use block_puzzle::random::{SimpleRandom, DEFAULT_SEED};
use block_puzzle::ratio::Ratio;
use block_puzzle::session::{
    check_game_over, generate_blocks, line_clear_score, normal_block_count, offered_blocks, pick_rescue,
};
use block_puzzle::shape::{BlockColor, BlockShape};
use block_puzzle::wave::{ChallengeType, WaveManager, WavePhase, COMPLEXITY_SCALE};
use block_puzzle::week::{current_year_week, get_current_week_display_text, get_weekly_leaderboard_key};
use block_puzzle::GameMode;

#[test]
fn wave_cycle_and_bonus() {
    let mut w = WaveManager::new();
    assert_eq!(w.get_current_phase(), WavePhase::Accumulation);
    let mut bonuses = Vec::new();
    for turn in 1..=28u32 {
        bonuses.push(w.increment_turn());
        if turn == 20 {
            assert_eq!(w.get_current_phase(), WavePhase::ChallengeActive(ChallengeType::BlockFlood));
            assert_eq!(w.turns_in_phase, 0);
            assert!(w.is_challenge_active());
            assert_eq!(w.get_active_challenge_type(), Some(ChallengeType::BlockFlood));
        }
        if turn == 25 {
            assert_eq!(w.get_current_phase(), WavePhase::Relief);
        }
    }
    assert_eq!(w.get_current_phase(), WavePhase::Accumulation);
    assert_eq!(w.get_turn_count(), 28);
    for (i, b) in bonuses.iter().enumerate() {
        if i + 1 == 25 {
            assert_eq!(*b, 100);
        } else {
            assert_eq!(*b, 0);
        }
    }
}

#[test]
fn wave_complexity_values() {
    let mut w = WaveManager::new();
    assert_eq!(COMPLEXITY_SCALE, 600);
    assert_eq!(w.block_complexity_factor, 60);
    w.increment_turn();
    // Turn 1, accumulating: (0.15 + 1/60) × 0.5 = 50/600.
    assert_eq!(w.block_complexity_factor, 50);
    for _ in 1..20 {
        w.increment_turn();
    }
    // Turn 20, challenge: (0.15 + 20/60) × 1.3 = 377/600.
    assert_eq!(w.block_complexity_factor, 377);
    for _ in 20..25 {
        w.increment_turn();
    }
    // Turn 25, relief: 0.4 × (0.15 + 25/60) = 136/600.
    assert_eq!(w.block_complexity_factor, 136);
    assert_eq!(w.blocks_per_generation, 3);
    assert!(w.get_active_target_lines().is_empty());
    w.notify_line_cleared(3, true);
    assert_eq!(w.get_turn_count(), 25);
}

#[test]
fn wave_complexity_is_capped() {
    let mut w = WaveManager::new();
    for _ in 0..120 {
        w.increment_turn();
    }
    // Turn 120 is in an accumulation phase: 0.7 × 0.5.
    assert_eq!(w.get_current_phase(), WavePhase::Accumulation);
    assert_eq!(w.block_complexity_factor, 210);
}

#[test]
fn help_offer_thresholds() {
    let w = WaveManager::new();
    let hard = Ratio { num: 61, den: 100 };
    let easy = Ratio { num: 4, den: 100 };
    assert!(w.offer_help_for_roll(hard, 89));
    assert!(!w.offer_help_for_roll(hard, 90));
    assert!(!w.offer_help_for_roll(easy, 0));
    let mid = Ratio { num: 30, den: 100 };
    assert!(w.offer_help_for_roll(mid, 49));
    assert!(!w.offer_help_for_roll(mid, 50));
    let filled = Ratio { num: 20, den: 64 };
    assert!(w.offer_help_for_fill_roll(filled, 69));
    assert!(!w.offer_help_for_fill_roll(filled, 70));
    assert!(!w.offer_help_for_fill_roll(Ratio { num: 10, den: 64 }, 0));
    assert!(!w.should_offer_helpful_block_v2(easy));
}

#[test]
fn help_offer_in_relief_and_challenge() {
    let mut w = WaveManager::new();
    for _ in 0..20 {
        w.increment_turn();
    }
    let s = Ratio { num: 24, den: 100 };
    assert!(!w.offer_help_for_roll(s, 0));
    assert!(w.offer_help_for_roll(Ratio { num: 7, den: 10 }, 79));
    for _ in 0..5 {
        w.increment_turn();
    }
    assert!(w.offer_help_for_roll(Ratio { num: 0, den: 1 }, 14));
    assert!(!w.offer_help_for_roll(Ratio { num: 0, den: 1 }, 15));
}

#[test]
fn simple_random_sequence() {
    let mut r = SimpleRandom::new(0);
    let mut expected = DEFAULT_SEED;
    expected ^= expected << 13;
    expected ^= expected >> 7;
    expected ^= expected << 17;
    assert_eq!(r.next_u64(), expected);
    let mut a = SimpleRandom::new(42);
    let mut b = SimpleRandom::new(42);
    assert_eq!(a.next_u64(), b.next_u64());
    for _ in 0..100 {
        let v = a.gen_range(-5, 5);
        assert!((-5..5).contains(&v));
    }
    assert_eq!(a.gen_range(3, 3), 3);
    assert_eq!(a.gen_range(i32::MIN, i32::MAX) < i32::MAX, true);
    let items = [10, 20, 30];
    let picked = *a.pick(&items).unwrap();
    assert!(items.contains(&picked));
    let none: [u8; 0] = [];
    assert!(a.pick(&none).is_none());
}

#[test]
fn week_key_and_text() {
    // 2024-07-25 00:00 UTC: day 207 of a leap year, week 30.
    let ms = 1_721_865_600_000u64;
    assert_eq!(current_year_week(ms), (2024, 30));
    assert_eq!(get_weekly_leaderboard_key(ms), "player_score_2024_30");
    assert_eq!(get_current_week_display_text(ms), "(2024年 第30周)");
    // 1970-01-01: week 1, padded.
    assert_eq!(get_weekly_leaderboard_key(0), "player_score_1970_01");
    // 2023-12-31: day 365, week 53.
    assert_eq!(current_year_week(1_703_980_800_000), (2023, 53));
}

#[test]
fn line_clear_scores() {
    assert_eq!(line_clear_score(0), 0);
    assert_eq!(line_clear_score(1), 100);
    assert_eq!(line_clear_score(2), 300);
    assert_eq!(line_clear_score(3), 500);
    assert_eq!(line_clear_score(4), 800);
    assert_eq!(line_clear_score(6), 1400);
}

#[test]
fn game_over_when_nothing_fits() {
    let mut grid = Grid::new();
    let c = BlockColor { r: 1, g: 1, b: 1, a: 255 };
    for y in 0..8 {
        for x in 0..8 {
            if (x + y) % 2 == 0 {
                grid.set_cell(x, y, Some(c));
            }
        }
    }
    let domino = BlockShape { cells: shape_cells(ShapeKind::H2), color: c, base_shape_name: "SHAPE_H2" };
    let dot = BlockShape { cells: shape_cells(ShapeKind::Dot), color: c, base_shape_name: "SHAPE_DOT" };
    assert!(check_game_over(&grid, &vec![domino.clone()]));
    assert!(!check_game_over(&grid, &vec![domino, dot]));
    assert!(check_game_over(&grid, &vec![]));
}

#[test]
fn block_generation_counts() {
    assert_eq!(normal_block_count(3, true), 2);
    assert_eq!(normal_block_count(3, false), 3);
    assert_eq!(normal_block_count(0, true), 0);
    let grid = Grid::new();
    let w = WaveManager::new();
    for _ in 0..20 {
        assert_eq!(generate_blocks(&grid, &w, GameMode::Normal).len(), 3);
    }
}

#[test]
fn log_levels() {
    assert_eq!(LogLevel::Debug.tag(), "[DEBUG]");
    assert_eq!(LogLevel::Warning.tag(), "[WARN]");
    assert!(LogLevel::Error.is_error_stream());
    assert!(!LogLevel::Info.is_error_stream());
}

#[test]
fn combo_scoring() {
    assert_eq!(block_puzzle::session::score_after_clears(1000, 0, 1), (1100, 1));
    assert_eq!(block_puzzle::session::score_after_clears(1000, 2, 2), (1900, 3));
    assert_eq!(block_puzzle::session::score_after_clears(1000, 4, 0), (1000, 0));
}

#[test]
fn rescue_pick_and_assembly() {
    let c = BlockColor { r: 1, g: 2, b: 3, a: 255 };
    let mk = |cells: Vec<(i32, i32)>, name: &'static str| BlockShape { cells, color: c, base_shape_name: name };
    let candidates = vec![mk(vec![(0, 0)], "A"), mk(vec![(0, 0), (1, 0)], "B")];
    let picked = pick_rescue(candidates.clone(), 1).unwrap();
    assert_eq!(picked.base_shape_name, "B");
    assert!(pick_rescue(candidates, 2).is_none());
    let normal = vec![mk(vec![(0, 0)], "N1"), mk(vec![(0, 0)], "N2")];
    let all = offered_blocks(Some(picked), normal.clone());
    let names: Vec<&str> = all.iter().map(|b| b.base_shape_name).collect();
    assert_eq!(names, vec!["B", "N1", "N2"]);
    assert_eq!(offered_blocks(None, normal).len(), 2);
}
