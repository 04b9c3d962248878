//! The birth/survival rule: closed-interval thresholds on a cell's
//! neighbor-influence score, plus the flag selecting proportional scoring.

use vstd::prelude::*;

verus! {

/// Thresholds for one automaton rule. A live cell survives when its
/// influence score lies in `[survive_min, survive_max]`; a dead cell is born
/// when its score lies in `[birth_min, birth_max]`. With `proportional` set,
/// the score weights each live neighbor by that neighbor's own
/// live-neighbor count instead of counting live neighbors plainly.
#[derive(Clone, Copy, Debug, PartialEq, Eq, Structural)]
pub struct RuleConfig {
    pub survive_min: u32,
    pub survive_max: u32,
    pub birth_min: u32,
    pub birth_max: u32,
    pub proportional: bool,
}

impl RuleConfig {
    /// A live cell with this influence score stays alive.
    pub open spec fn survives(self, score: nat) -> bool {
        self.survive_min <= score <= self.survive_max
    }

    /// A dead cell with this influence score becomes alive.
    pub open spec fn born(self, score: nat) -> bool {
        self.birth_min <= score <= self.birth_max
    }

    /// The next liveness of a cell from its current liveness and score.
    pub open spec fn next_state(self, alive: bool, score: nat) -> bool {
        if alive {
            self.survives(score)
        } else {
            self.born(score)
        }
    }
}

impl Default for RuleConfig {
    /// The conventional thresholds: survive on 2 or 3, birth on exactly 3,
    /// plain (non-proportional) scoring.
    fn default() -> (r: Self)
        ensures
            r.survive_min == 2,
            r.survive_max == 3,
            r.birth_min == 3,
            r.birth_max == 3,
            !r.proportional,
    {
        RuleConfig { survive_min: 2, survive_max: 3, birth_min: 3, birth_max: 3, proportional: false }
    }
}

/// The survival interval is closed on both ends: a live cell whose score is
/// exactly `survive_min` or exactly `survive_max` survives, and one whose
/// score falls outside the interval on either side does not. (With an empty
/// interval, `survive_min > survive_max`, no score survives, so the
/// endpoint claims are stated for non-empty intervals only.)
pub proof fn lemma_survival_bounds(cfg: RuleConfig)
    requires
        cfg.survive_min <= cfg.survive_max,
    ensures
        cfg.survives(cfg.survive_min as nat),
        cfg.survives(cfg.survive_max as nat),
        forall|score: nat| score < cfg.survive_min ==> !cfg.survives(score),
        forall|score: nat| score > cfg.survive_max ==> !cfg.survives(score),
        forall|score: nat| #[trigger] cfg.next_state(true, score) <==> cfg.survives(score),
{
}

/// The birth interval is closed on both ends in the same way.
pub proof fn lemma_birth_bounds(cfg: RuleConfig)
    requires
        cfg.birth_min <= cfg.birth_max,
    ensures
        cfg.born(cfg.birth_min as nat),
        cfg.born(cfg.birth_max as nat),
        forall|score: nat| score < cfg.birth_min ==> !cfg.born(score),
        forall|score: nat| score > cfg.birth_max ==> !cfg.born(score),
        forall|score: nat| #[trigger] cfg.next_state(false, score) <==> cfg.born(score),
{
}

} // verus!
