use vstd::prelude::*;
use crate::constants::{GHOST_RELEASE_MILLIS, GHOST_SCARE_MILLIS};

verus! {

/// A one-shot countdown over elapsed milliseconds. It finishes once the
/// elapsed time reaches the duration and then holds until reset.
#[derive(Clone, Copy, Debug, PartialEq, Eq, Structural)]
pub struct Timer {
    pub duration: u64,
    pub elapsed: u64,
}

impl Timer {
    pub open spec fn from_millis_spec(duration: u64) -> Timer {
        Timer { duration, elapsed: 0 }
    }

    pub open spec fn spec_finished(self) -> bool {
        self.elapsed >= self.duration
    }

    /// The timer after `delta` more milliseconds; elapsed time stops at the duration.
    pub open spec fn spec_ticked(self, delta: int) -> Timer {
        if self.spec_finished() {
            self
        } else if self.elapsed + delta >= self.duration {
            Timer { elapsed: self.duration, ..self }
        } else {
            Timer { elapsed: (self.elapsed + delta) as u64, ..self }
        }
    }

    pub open spec fn spec_reset(self) -> Timer {
        Timer { elapsed: 0, ..self }
    }

    pub fn from_millis(duration: u64) -> (r: Timer)
        ensures
            r.duration == duration,
            r.elapsed == 0,
    {
        Timer { duration, elapsed: 0 }
    }

    pub fn tick(&mut self, delta: u64)
        ensures
            *final(self) == old(self).spec_ticked(delta as int),
    {
        if self.elapsed >= self.duration {
            return;
        }
        if delta >= self.duration - self.elapsed {
            self.elapsed = self.duration;
        } else {
            self.elapsed = self.elapsed + delta;
        }
    }

    pub fn finished(&self) -> (r: bool)
        ensures
            r == self.spec_finished(),
    {
        self.elapsed >= self.duration
    }

    pub fn reset(&mut self)
        ensures
            *final(self) == old(self).spec_reset(),
    {
        self.elapsed = 0;
    }
}

/// The shared countdown of how long ghosts stay scared.
#[derive(Clone, Copy, Debug, PartialEq, Eq, Structural)]
pub struct GhostScareTimer(pub Timer);

impl Default for GhostScareTimer {
    fn default() -> (r: GhostScareTimer)
        ensures
            r.0.duration == GHOST_SCARE_MILLIS,
            r.0.elapsed == 0,
    {
        GhostScareTimer(Timer::from_millis(GHOST_SCARE_MILLIS))
    }
}

/// The countdown before the next caged ghost is released.
#[derive(Clone, Copy, Debug, PartialEq, Eq, Structural)]
pub struct GhostReleaseTimer(pub Timer);

impl Default for GhostReleaseTimer {
    fn default() -> (r: GhostReleaseTimer)
        ensures
            r.0.duration == GHOST_RELEASE_MILLIS,
            r.0.elapsed == 0,
    {
        GhostReleaseTimer(Timer::from_millis(GHOST_RELEASE_MILLIS))
    }
}

} // verus!
