use vstd::prelude::*;

verus! {

/// The running score; it only grows, and stops at `u64::MAX`.
#[derive(Clone, Copy, Debug, PartialEq, Eq, Structural)]
pub struct Score(pub u64);

impl Score {
    pub fn add(&mut self, points: u64)
        ensures
            final(self).0 == if old(self).0 + points > u64::MAX {
                u64::MAX as int
            } else {
                old(self).0 + points
            },
    {
        self.0 = self.0.saturating_add(points);
    }
}

/// How many ghosts have been caught since the last power-up; selects the
/// points of the next catch.
#[derive(Clone, Copy, Debug, PartialEq, Eq, Structural)]
pub struct GhostChain(pub u64);

/// Largest value of any single award.
pub const MAX_AWARD: u64 = 4294967295;

/// The points of each kind of award.
#[derive(Clone, Copy, Debug, PartialEq, Eq, Structural)]
pub struct PointValues {
    pub dot: u64,
    pub power_up: u64,
    pub first_ghost: u64,
    pub second_ghost: u64,
    pub third_ghost: u64,
    pub fourth_ghost: u64,
    pub cherry: u64,
    pub strawberry: u64,
    pub orange: u64,
    pub apple: u64,
    pub melon: u64,
    pub flagship: u64,
    pub bell: u64,
    pub key: u64,
}

/// The award for the catch made with `chain` ghosts already caught: the
/// tiers saturate after the fourth.
pub open spec fn ghost_tier(pv: PointValues, chain: int) -> u64 {
    if chain <= 0 {
        pv.first_ghost
    } else if chain == 1 {
        pv.second_ghost
    } else if chain == 2 {
        pv.third_ghost
    } else {
        pv.fourth_ghost
    }
}

impl PointValues {
    /// Every ghost award is at most `MAX_AWARD`.
    pub open spec fn wf(&self) -> bool {
        &&& self.first_ghost <= MAX_AWARD
        &&& self.second_ghost <= MAX_AWARD
        &&& self.third_ghost <= MAX_AWARD
        &&& self.fourth_ghost <= MAX_AWARD
    }

    pub open spec fn is_standard(&self) -> bool {
        &&& self.dot == 10
        &&& self.power_up == 50
        &&& self.first_ghost == 200
        &&& self.second_ghost == 400
        &&& self.third_ghost == 800
        &&& self.fourth_ghost == 1600
        &&& self.cherry == 100
        &&& self.strawberry == 300
        &&& self.orange == 500
        &&& self.apple == 700
        &&& self.melon == 1000
        &&& self.flagship == 2000
        &&& self.bell == 3000
        &&& self.key == 5000
    }

    pub fn ghost_points(&self, chain: u64) -> (r: u64)
        ensures
            r == ghost_tier(*self, chain as int),
    {
        if chain == 0 {
            self.first_ghost
        } else if chain == 1 {
            self.second_ghost
        } else if chain == 2 {
            self.third_ghost
        } else {
            self.fourth_ghost
        }
    }
}

impl Default for PointValues {
    fn default() -> (r: PointValues)
        ensures
            r.is_standard(),
            r.wf(),
    {
        PointValues {
            dot: 10,
            power_up: 50,
            first_ghost: 200,
            second_ghost: 400,
            third_ghost: 800,
            fourth_ghost: 1600,
            cherry: 100,
            strawberry: 300,
            orange: 500,
            apple: 700,
            melon: 1000,
            flagship: 2000,
            bell: 3000,
            key: 5000,
        }
    }
}

/// With the standard values, consecutive catches after one power-up are worth
/// 200, 400, 800, 1600, and 1600 for every catch after that.
pub proof fn lemma_standard_tiers(pv: PointValues, chain: int)
    requires
        pv.is_standard(),
        chain >= 0,
    ensures
        ghost_tier(pv, chain) == (if chain == 0 {
            200u64
        } else if chain == 1 {
            400u64
        } else if chain == 2 {
            800u64
        } else {
            1600u64
        }),
{
}

} // verus!
