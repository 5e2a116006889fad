//! The difficulty wave: a turn-driven cycle of accumulation, challenge and
//! relief phases that sets piece complexity and decides when to offer help.
use vstd::prelude::*;
use crate::random::random_below;
use crate::ratio::Ratio;

verus! {

/// Kinds of challenge phase.
#[derive(PartialEq, Eq, Structural, Copy, Clone, Debug)]
pub enum ChallengeType {
    BlockFlood,
}

/// The phase of the wave.
#[derive(PartialEq, Eq, Structural, Copy, Clone, Debug)]
pub enum WavePhase {
    Accumulation,
    ChallengeActive(ChallengeType),
    Relief,
}

/// Bonus paid when a block-flood challenge ends.
pub const SCORE_BONUS_BLOCK_FLOOD_SURVIVAL: u32 = 100;

/// Complexity factors are counted in 600ths, which holds every value the
/// wave produces exactly.
pub const COMPLEXITY_SCALE: u32 = 600;

/// The phase that follows `p` in the cycle.
pub open spec fn next_phase(p: WavePhase) -> WavePhase {
    match p {
        WavePhase::Accumulation => WavePhase::ChallengeActive(ChallengeType::BlockFlood),
        WavePhase::ChallengeActive(_) => WavePhase::Relief,
        WavePhase::Relief => WavePhase::Accumulation,
    }
}

/// `min(0.7, 0.15 + turns / 60)` in 600ths.
pub open spec fn base_complexity(turns: int) -> int {
    if 90 + 10 * turns < 420 {
        90 + 10 * turns
    } else {
        420
    }
}

/// The base complexity scaled for the phase: ×0.5 while accumulating, ×1.3
/// capped at 0.9 in a challenge, ×0.4 in relief (all in 600ths).
pub open spec fn complexity_for(p: WavePhase, turns: int) -> int {
    let b = base_complexity(turns);
    match p {
        WavePhase::Accumulation => b / 2,
        WavePhase::ChallengeActive(_) => if b * 13 / 10 < 540 {
            b * 13 / 10
        } else {
            540
        },
        WavePhase::Relief => b * 4 / 10,
    }
}

/// Percent chance of offering a helpful piece, by phase and difficulty score.
pub open spec fn help_chance_percent(p: WavePhase, s: Ratio) -> int {
    match p {
        WavePhase::Relief => if s.spec_at_least_percent(50) {
            95
        } else if s.spec_at_least_percent(35) {
            80
        } else if s.spec_at_least_percent(20) {
            60
        } else if s.spec_at_least_percent(10) {
            35
        } else {
            15
        },
        WavePhase::Accumulation => if s.spec_at_least_percent(60) {
            90
        } else if s.spec_at_least_percent(45) {
            70
        } else if s.spec_at_least_percent(30) {
            50
        } else if s.spec_at_least_percent(15) {
            30
        } else if s.spec_at_least_percent(5) {
            10
        } else {
            0
        },
        WavePhase::ChallengeActive(_) => if s.spec_at_least_percent(70) {
            80
        } else if s.spec_at_least_percent(55) {
            50
        } else if s.spec_at_least_percent(40) {
            25
        } else if s.spec_at_least_percent(25) {
            10
        } else {
            0
        },
    }
}

/// Percent chance of offering a helpful piece, by phase and filled share of the board.
pub open spec fn fill_help_chance_percent(p: WavePhase, filled: Ratio) -> int {
    match p {
        WavePhase::ChallengeActive(_) => if filled.spec_at_least_percent(45) {
            80
        } else {
            0
        },
        _ => if filled.spec_at_least_percent(30) {
            70
        } else {
            0
        },
    }
}

/// Turn counter, phase state and the parameters derived from them.
#[derive(Clone, Debug)]
pub struct WaveManager {
    pub turn_count: u32,
    pub current_phase: WavePhase,
    pub turns_in_phase: u32,
    pub accumulation_turns: u32,
    pub challenge_active_turns: u32,
    pub relief_turns: u32,
    pub blocks_per_generation: usize,
    /// In 600ths (see [`COMPLEXITY_SCALE`]).
    pub block_complexity_factor: u32,
    pub pending_score_bonus: u32,
}

/// A manager that has seen no turn: accumulating, durations 20, 5 and 3.
pub open spec fn fresh_wave() -> WaveManager {
    WaveManager {
        turn_count: 0,
        current_phase: WavePhase::Accumulation,
        turns_in_phase: 0,
        accumulation_turns: 20,
        challenge_active_turns: 5,
        relief_turns: 3,
        blocks_per_generation: 3,
        block_complexity_factor: 60,
        pending_score_bonus: 0,
    }
}

/// The duration of phase `p` in `w`.
pub open spec fn phase_duration(w: WaveManager, p: WavePhase) -> int {
    match p {
        WavePhase::Accumulation => w.accumulation_turns as int,
        WavePhase::ChallengeActive(_) => w.challenge_active_turns as int,
        WavePhase::Relief => w.relief_turns as int,
    }
}

/// One turn: the new state and the bonus paid for it. The phase advances one
/// step when its duration is reached, and leaving a challenge pays the
/// survival bonus.
pub open spec fn turn_step(w: WaveManager) -> (WaveManager, u32) {
    let t = w.turns_in_phase + 1;
    let due = t >= phase_duration(w, w.current_phase);
    let phase = if due {
        next_phase(w.current_phase)
    } else {
        w.current_phase
    };
    let turns = w.turn_count + 1;
    let bonus: u32 = if due && w.current_phase is ChallengeActive {
        SCORE_BONUS_BLOCK_FLOOD_SURVIVAL
    } else {
        0
    };
    (
        WaveManager {
            turn_count: turns as u32,
            current_phase: phase,
            turns_in_phase: if due {
                0
            } else {
                t as u32
            },
            block_complexity_factor: complexity_for(phase, turns) as u32,
            pending_score_bonus: 0,
            ..w
        },
        bonus,
    )
}

/// The state after `n` turns from `w`.
pub open spec fn run_turns(w: WaveManager, n: nat) -> WaveManager
    decreases n,
{
    if n == 0 {
        w
    } else {
        turn_step(run_turns(w, (n - 1) as nat)).0
    }
}

/// The bonus paid by the `n`-th turn from `w` (`n >= 1`).
pub open spec fn bonus_of_turn(w: WaveManager, n: nat) -> u32 {
    turn_step(run_turns(w, (n - 1) as nat)).1
}

/// Phase and counters after `n` turns from a fresh manager, for `n <= 28`.
proof fn lemma_wave_prefix(n: nat)
    requires
        n <= 28,
    ensures
        ({
            let s = run_turns(fresh_wave(), n);
            &&& s.accumulation_turns == 20
            &&& s.challenge_active_turns == 5
            &&& s.relief_turns == 3
            &&& s.turn_count == n
            &&& n < 20 ==> s.current_phase == WavePhase::Accumulation && s.turns_in_phase == n
            &&& 20 <= n < 25 ==> s.current_phase == WavePhase::ChallengeActive(
                ChallengeType::BlockFlood,
            ) && s.turns_in_phase == n - 20
            &&& 25 <= n < 28 ==> s.current_phase == WavePhase::Relief && s.turns_in_phase == n - 25
            &&& n == 28 ==> s.current_phase == WavePhase::Accumulation && s.turns_in_phase == 0
        }),
    decreases n,
{
    if n > 0 {
        lemma_wave_prefix((n - 1) as nat);
    }
}

/// From a fresh manager: after 20 turns the block-flood challenge has just
/// begun, after 25 relief, after 28 accumulation again; of those 28 turns
/// only the 25th, which ends the challenge, pays a bonus.
pub proof fn lemma_wave_cycle()
    ensures
        run_turns(fresh_wave(), 20).current_phase == WavePhase::ChallengeActive(
            ChallengeType::BlockFlood,
        ),
        run_turns(fresh_wave(), 20).turns_in_phase == 0,
        run_turns(fresh_wave(), 25).current_phase == WavePhase::Relief,
        run_turns(fresh_wave(), 28).current_phase == WavePhase::Accumulation,
        forall|n: nat| 1 <= n <= 28 ==> (#[trigger] bonus_of_turn(fresh_wave(), n) != 0 <==> n == 25),
{
    let w = fresh_wave();
    lemma_wave_prefix(20);
    lemma_wave_prefix(25);
    lemma_wave_prefix(28);
    assert forall|n: nat| 1 <= n <= 28 implies (#[trigger] bonus_of_turn(w, n) != 0 <==> n == 25) by {
        lemma_wave_prefix((n - 1) as nat);
    }
}

impl WaveManager {
    /// No bonus is left over between turns, and the phase counter never
    /// exceeds the turn counter.
    pub open spec fn wf(&self) -> bool {
        self.pending_score_bonus == 0 && self.turns_in_phase <= self.turn_count
    }

    /// A fresh manager: accumulating, no turn yet, durations 20, 5 and 3.
    pub fn new() -> (r: Self)
        ensures
            r == fresh_wave(),
            r.wf(),
    {
        WaveManager {
            turn_count: 0,
            current_phase: WavePhase::Accumulation,
            turns_in_phase: 0,
            accumulation_turns: 20,
            challenge_active_turns: 5,
            relief_turns: 3,
            blocks_per_generation: 3,
            block_complexity_factor: 60,
            pending_score_bonus: 0,
        }
    }

    fn update_phase(&mut self)
        requires
            old(self).pending_score_bonus == 0,
        ensures
            ({
                let due = old(self).turns_in_phase >= phase_duration(
                    *old(self),
                    old(self).current_phase,
                );
                &&& final(self).current_phase == if due {
                    next_phase(old(self).current_phase)
                } else {
                    old(self).current_phase
                }
                &&& final(self).turns_in_phase == if due {
                    0
                } else {
                    old(self).turns_in_phase
                }
                &&& final(self).pending_score_bonus == old(self).pending_score_bonus + if due
                    && old(self).current_phase is ChallengeActive {
                    SCORE_BONUS_BLOCK_FLOOD_SURVIVAL as int
                } else {
                    0
                }
            }),
            final(self).turn_count == old(self).turn_count,
            final(self).accumulation_turns == old(self).accumulation_turns,
            final(self).challenge_active_turns == old(self).challenge_active_turns,
            final(self).relief_turns == old(self).relief_turns,
            final(self).blocks_per_generation == old(self).blocks_per_generation,
            final(self).block_complexity_factor == old(self).block_complexity_factor,
    {
        let phase_duration = match self.current_phase {
            WavePhase::Accumulation => self.accumulation_turns,
            WavePhase::ChallengeActive(_) => self.challenge_active_turns,
            WavePhase::Relief => self.relief_turns,
        };
        if self.turns_in_phase >= phase_duration {
            let next = match self.current_phase {
                WavePhase::Accumulation => {
                    let challenge = self.select_next_challenge();
                    WavePhase::ChallengeActive(challenge)
                },
                WavePhase::ChallengeActive(_) => {
                    self.end_challenge();
                    WavePhase::Relief
                },
                WavePhase::Relief => WavePhase::Accumulation,
            };
            self.transition_to(next);
        }
    }

    fn transition_to(&mut self, next_phase: WavePhase)
        ensures
            *final(self) == (WaveManager {
                current_phase: next_phase,
                turns_in_phase: 0,
                ..*old(self)
            }),
    {
        self.current_phase = next_phase;
        self.turns_in_phase = 0;
    }

    fn select_next_challenge(&self) -> (r: ChallengeType)
        ensures
            r == ChallengeType::BlockFlood,
    {
        ChallengeType::BlockFlood
    }

    fn end_challenge(&mut self)
        requires
            old(self).pending_score_bonus == 0,
        ensures
            *final(self) == (WaveManager {
                pending_score_bonus: if old(self).current_phase is ChallengeActive {
                    SCORE_BONUS_BLOCK_FLOOD_SURVIVAL
                } else {
                    0
                },
                ..*old(self)
            }),
    {
        if let WavePhase::ChallengeActive(challenge_type) = self.current_phase {
            match challenge_type {
                ChallengeType::BlockFlood => {
                    self.pending_score_bonus = self.pending_score_bonus
                        + SCORE_BONUS_BLOCK_FLOOD_SURVIVAL;
                },
            }
        }
    }

    fn update_difficulty(&mut self)
        ensures
            *final(self) == (WaveManager {
                block_complexity_factor: complexity_for(
                    old(self).current_phase,
                    old(self).turn_count as int,
                ) as u32,
                ..*old(self)
            }),
    {
        let t: u64 = self.turn_count as u64;
        let base: u64 = if 90 + 10 * t < 420 {
            90 + 10 * t
        } else {
            420
        };
        let factor: u64 = match self.current_phase {
            WavePhase::Accumulation => base / 2,
            WavePhase::ChallengeActive(challenge_type) => match challenge_type {
                ChallengeType::BlockFlood => {
                    if base * 13 / 10 < 540 {
                        base * 13 / 10
                    } else {
                        540
                    }
                },
            },
            WavePhase::Relief => base * 4 / 10,
        };
        self.block_complexity_factor = factor as u32;
    }

    /// Advances one turn (called once per placed piece) and returns the bonus
    /// it pays, which the caller adds to the score.
    pub fn increment_turn(&mut self) -> (r: u32)
        requires
            old(self).wf(),
            old(self).turn_count < u32::MAX,
        ensures
            *final(self) == turn_step(*old(self)).0,
            r == turn_step(*old(self)).1,
            final(self).wf(),
    {
        self.turn_count = self.turn_count + 1;
        self.turns_in_phase = self.turns_in_phase + 1;
        self.update_phase();
        self.update_difficulty();
        let bonus = self.pending_score_bonus;
        self.pending_score_bonus = 0;
        bonus
    }

    /// Hook for clears during a challenge; the block flood pays nothing per line.
    pub fn notify_line_cleared(&mut self, index: usize, is_row: bool)
        ensures
            *final(self) == *old(self),
    {
        if let WavePhase::ChallengeActive(challenge_type) = self.current_phase {
            match challenge_type {
                ChallengeType::BlockFlood => {},
            }
        }
    }

    /// Lines to highlight for the active challenge; none for the block flood.
    pub fn get_active_target_lines(&self) -> (r: Vec<usize>)
        ensures
            r@.len() == 0,
    {
        Vec::new()
    }

    pub fn get_current_phase(&self) -> (r: WavePhase)
        ensures
            r == self.current_phase,
    {
        self.current_phase
    }

    pub fn get_turn_count(&self) -> (r: u32)
        ensures
            r == self.turn_count,
    {
        self.turn_count
    }

    pub fn is_challenge_active(&self) -> (r: bool)
        ensures
            r == self.current_phase is ChallengeActive,
    {
        match self.current_phase {
            WavePhase::ChallengeActive(_) => true,
            _ => false,
        }
    }

    pub fn get_active_challenge_type(&self) -> (r: Option<ChallengeType>)
        ensures
            r == match self.current_phase {
                WavePhase::ChallengeActive(c) => Some(c),
                _ => None,
            },
    {
        if let WavePhase::ChallengeActive(challenge_type) = self.current_phase {
            Some(challenge_type)
        } else {
            None
        }
    }

    /// Whether a draw `roll` in `[0, 100)` grants a helpful piece: it does when
    /// below [`help_chance_percent`] for the phase and difficulty score.
    pub fn offer_help_for_roll(&self, difficulty_score: Ratio, roll: u32) -> (r: bool)
        requires
            difficulty_score.num <= u32::MAX,
            difficulty_score.den <= u32::MAX,
        ensures
            r == (roll < help_chance_percent(self.current_phase, difficulty_score)),
    {
        let s = difficulty_score;
        let chance: u32 = match self.current_phase {
            WavePhase::Relief => {
                if s.at_least_percent(50) {
                    95
                } else if s.at_least_percent(35) {
                    80
                } else if s.at_least_percent(20) {
                    60
                } else if s.at_least_percent(10) {
                    35
                } else {
                    15
                }
            },
            WavePhase::Accumulation => {
                if s.at_least_percent(60) {
                    90
                } else if s.at_least_percent(45) {
                    70
                } else if s.at_least_percent(30) {
                    50
                } else if s.at_least_percent(15) {
                    30
                } else if s.at_least_percent(5) {
                    10
                } else {
                    0
                }
            },
            WavePhase::ChallengeActive(_) => {
                if s.at_least_percent(70) {
                    80
                } else if s.at_least_percent(55) {
                    50
                } else if s.at_least_percent(40) {
                    25
                } else if s.at_least_percent(25) {
                    10
                } else {
                    0
                }
            },
        };
        roll < chance
    }

    /// Draws a percent in `[0, 100)` and offers help when it falls below the
    /// chance for the phase and difficulty score.
    pub fn should_offer_helpful_block_v2(&self, difficulty_score: Ratio) -> (r: bool)
        requires
            difficulty_score.num <= u32::MAX,
            difficulty_score.den <= u32::MAX,
        ensures
            r ==> help_chance_percent(self.current_phase, difficulty_score) > 0,
            !r ==> help_chance_percent(self.current_phase, difficulty_score) < 100,
    {
        let roll = random_below(100);
        self.offer_help_for_roll(difficulty_score, roll)
    }

    /// Whether a draw `roll` in `[0, 100)` grants a helpful piece by the older,
    /// fill-based rule: below [`fill_help_chance_percent`].
    pub fn offer_help_for_fill_roll(&self, grid_filled_ratio: Ratio, roll: u32) -> (r: bool)
        requires
            grid_filled_ratio.num <= u32::MAX,
            grid_filled_ratio.den <= u32::MAX,
        ensures
            r == (roll < fill_help_chance_percent(self.current_phase, grid_filled_ratio)),
    {
        let f = grid_filled_ratio;
        match self.current_phase {
            WavePhase::ChallengeActive(_) => {
                if f.at_least_percent(45) {
                    roll < 80
                } else {
                    false
                }
            },
            _ => {
                if f.at_least_percent(30) {
                    roll < 70
                } else {
                    false
                }
            },
        }
    }

    /// Draws a percent in `[0, 100)` and applies the fill-based rule.
    pub fn should_offer_helpful_block(&self, grid_filled_ratio: Ratio) -> (r: bool)
        requires
            grid_filled_ratio.num <= u32::MAX,
            grid_filled_ratio.den <= u32::MAX,
        ensures
            r ==> fill_help_chance_percent(self.current_phase, grid_filled_ratio) > 0,
            !r ==> fill_help_chance_percent(self.current_phase, grid_filled_ratio) < 100,
    {
        let roll = random_below(100);
        self.offer_help_for_fill_roll(grid_filled_ratio, roll)
    }
}

} // verus!
