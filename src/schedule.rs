use vstd::prelude::*;

verus! {

/// Nanoseconds in one second.
pub const NANOS_PER_SECOND: u64 = 1_000_000_000;

/// The length in nanoseconds of one period of a `hz` hertz cadence,
/// rounded down. A rate of zero has no finite period: it gives `u64::MAX`.
pub fn hz_to_nanosec_period(hz: u16) -> (r: u64)
    ensures
        hz == 0 ==> r == u64::MAX,
        hz > 0 ==> r == NANOS_PER_SECOND / (hz as u64),
{
    if hz == 0 {
        u64::MAX
    } else {
        NANOS_PER_SECOND / (hz as u64)
    }
}

/// How far an app is with its work.
#[derive(PartialEq, Eq, Structural, Clone, Copy, Debug)]
pub enum DoneStatus {
    /// The program should quit, the app has nothing left to do.
    Exit,
    /// The program should remain open, but the app is done: it is neither
    /// ticked nor drawn any more, and its last frame stays on screen.
    Remain,
    /// The program should continue, the app is not done.
    NotDone,
}

/// What the host loop does when it has no event left to handle.
#[derive(PartialEq, Eq, Structural, Clone, Copy, Debug)]
pub enum IdleAction {
    /// Leave the loop.
    Exit,
    /// Run one tick (drain the keys into the app) and ask for a redraw.
    Tick,
    /// Sleep until the given instant, in nanoseconds, unless an event comes.
    WaitUntil(u64),
    /// Sleep until the next event.
    Wait,
}

/// Decides when ticks happen: at most one per period, however often the
/// host wakes up, and no wake-up at all while nothing needs ticking.
/// Instants are nanoseconds from a fixed origin of the host's choosing.
pub struct TickScheduler {
    pub last_tick: u64,
    pub tick_period: u64,
    /// Whether to tick even while no key is held (for animations).
    pub always_tick: bool,
}

impl TickScheduler {
    /// A scheduler ticking `tick_per_second` times per second, the last tick
    /// taken at `now`.
    pub fn new(tick_per_second: u16, now: u64) -> (r: TickScheduler)
        ensures
            r.last_tick == now,
            tick_per_second > 0 ==> r.tick_period == NANOS_PER_SECOND / (tick_per_second as u64),
            tick_per_second == 0 ==> r.tick_period == u64::MAX,
            !r.always_tick,
    {
        TickScheduler { last_tick: now, tick_period: hz_to_nanosec_period(tick_per_second), always_tick: false }
    }

    /// Sets whether ticks run even while no key is held.
    pub fn set_always_tick(&mut self, val: bool)
        ensures
            final(self).always_tick == val,
            final(self).last_tick == old(self).last_tick,
            final(self).tick_period == old(self).tick_period,
    {
        self.always_tick = val;
    }

    /// Handles the host going idle at `now`. The app asked to exit: `Exit`.
    /// A period or more since the last tick: a tick, taken at `now`.
    /// Otherwise, with a key held or ticks always on, a wake-up when the
    /// period ends; with neither, a wait for the next event.
    pub fn on_idle(&mut self, now: u64, status: DoneStatus, keys_held: bool) -> (r: IdleAction)
        ensures
            final(self).tick_period == old(self).tick_period,
            final(self).always_tick == old(self).always_tick,
            ({
                let elapsed: int = if now >= old(self).last_tick { now - old(self).last_tick } else { 0 };
                let wake: int = now + (old(self).tick_period - elapsed);
                if status == DoneStatus::Exit {
                    r == IdleAction::Exit && final(self).last_tick == old(self).last_tick
                } else if elapsed >= old(self).tick_period {
                    r == IdleAction::Tick && final(self).last_tick == now
                } else if old(self).always_tick || keys_held {
                    r == IdleAction::WaitUntil(if wake > u64::MAX { u64::MAX } else { wake as u64 })
                        && final(self).last_tick == old(self).last_tick
                } else {
                    r == IdleAction::Wait && final(self).last_tick == old(self).last_tick
                }
            }),
    {
        if status == DoneStatus::Exit {
            return IdleAction::Exit;
        }
        let elapsed = if now >= self.last_tick { now - self.last_tick } else { 0 };
        if elapsed >= self.tick_period {
            self.last_tick = now;
            IdleAction::Tick
        } else if self.always_tick || keys_held {
            IdleAction::WaitUntil(now.saturating_add(self.tick_period - elapsed))
        } else {
            IdleAction::Wait
        }
    }
}

} // verus!
