//! The cooldown accumulator shared by attack timers and miners.
use vstd::prelude::*;

verus! {

/// The largest damage, speed, range, interval, health or yield a
/// configuration may hold (2^32).
pub const STAT_LIMIT: u64 = 4_294_967_296;

/// Why a configuration was refused at construction.
#[derive(Clone, Copy, Debug, PartialEq, Eq, Structural)]
pub enum ConfigError {
    /// A zero interval or health, or a stat above `STAT_LIMIT`.
    InvalidConfig,
    /// A position outside the world square.
    OutOfBounds,
    /// No fresh entity handle is left.
    HandlesExhausted,
}

/// An accumulator of elapsed time that fires once it reaches its interval.
///
/// It fires at most once per advance and then restarts from zero: time
/// beyond the interval is dropped, not carried over.
#[derive(Clone, Copy, Debug, PartialEq, Eq, Structural)]
pub struct AttackTimer {
    /// Microseconds accumulated since the last firing.
    pub elapsed: u64,
    /// Microseconds between firings.
    pub interval: u64,
}

impl AttackTimer {
    pub open spec fn wf(self) -> bool {
        0 < self.interval <= STAT_LIMIT && self.elapsed < self.interval
    }

    /// The timer after `dt` more microseconds, and whether it fired.
    pub open spec fn advanced(self, dt: u64) -> (AttackTimer, bool) {
        if self.elapsed + dt >= self.interval {
            (AttackTimer { elapsed: 0, interval: self.interval }, true)
        } else {
            (AttackTimer { elapsed: (self.elapsed + dt) as u64, interval: self.interval }, false)
        }
    }

    /// A timer that has accumulated nothing; an interval of zero or above
    /// `STAT_LIMIT` is refused.
    pub fn new(interval: u64) -> (r: Result<AttackTimer, ConfigError>)
        ensures
            r is Ok <==> 0 < interval <= STAT_LIMIT,
            r is Ok ==> r->Ok_0 == (AttackTimer { elapsed: 0, interval }),
            r is Err ==> r->Err_0 == ConfigError::InvalidConfig,
    {
        if interval == 0 || interval > STAT_LIMIT {
            Err(ConfigError::InvalidConfig)
        } else {
            Ok(AttackTimer { elapsed: 0, interval })
        }
    }

    /// Advances by `dt` microseconds; returns whether the timer fired.
    pub fn tick(&mut self, dt: u64) -> (fired: bool)
        requires
            old(self).wf(),
        ensures
            (*final(self), fired) == old(self).advanced(dt),
            final(self).wf(),
    {
        if dt >= self.interval - self.elapsed {
            self.elapsed = 0;
            true
        } else {
            self.elapsed = self.elapsed + dt;
            false
        }
    }
}

} // verus!
