//! ARM generic-timer interval policy and monotonic ticks.
use vstd::prelude::*;

verus! {

/// Timer frequency.
pub const FREQUENCY_HZ: u64 = 100;
/// Duration represented by one tick.
pub const TICK_MILLISECONDS: u64 = 10;

/// Timer failures.
#[derive(Clone, Copy, Debug, PartialEq, Eq, Structural)]
pub enum TimerError {
    ZeroFrequency,
    IntervalOverflow,
    AlreadyInitialized,
    GicNotReady,
    NotInitialized,
}

/// The counter interval for `target_hz` at counter frequency `cntfrq`.
pub open spec fn interval_for(cntfrq: u64, target_hz: u64) -> Result<u64, TimerError> {
    if cntfrq == 0 || target_hz == 0 {
        Err(TimerError::ZeroFrequency)
    } else if cntfrq / target_hz == 0 || cntfrq / target_hz > u32::MAX {
        Err(TimerError::IntervalOverflow)
    } else {
        Ok(cntfrq / target_hz)
    }
}

/// Counter ticks between two timer interrupts.
pub fn calculate_interval(cntfrq: u64, target_hz: u64) -> (result: Result<u64, TimerError>)
    ensures
        result == interval_for(cntfrq, target_hz),
{
    if cntfrq == 0 || target_hz == 0 {
        return Err(TimerError::ZeroFrequency);
    }
    let interval = cntfrq / target_hz;
    if interval == 0 || interval > u32::MAX as u64 {
        return Err(TimerError::IntervalOverflow);
    }
    Ok(interval)
}

/// Whether a tick count measured over a 50 ms window is within tolerance.
pub fn frequency_window_valid(ticks: u64) -> (b: bool)
    ensures
        b == (3 <= ticks <= 7),
{
    ticks >= 3 && ticks <= 7
}

/// Return configured frequency.
pub fn frequency_hz() -> (f: u64)
    ensures
        f == FREQUENCY_HZ,
{
    FREQUENCY_HZ
}

/// Return configured tick duration.
pub fn tick_milliseconds() -> (t: u64)
    ensures
        t == TICK_MILLISECONDS,
{
    TICK_MILLISECONDS
}

/// The counter value a busy wait of `ms` milliseconds runs until, or `None`
/// when the counter frequency is zero and no wait happens.
pub fn spin_wait_milliseconds(frequency: u64, ms: u64, start: u64) -> (target: Option<u64>)
    ensures
        frequency == 0 ==> target.is_none(),
        frequency != 0 ==> target == Some(
            if start + (if frequency * ms > u64::MAX { u64::MAX as int } else { frequency * ms })
                / 1000 > u64::MAX {
                u64::MAX
            } else {
                (start + (if frequency * ms > u64::MAX { u64::MAX as int } else { frequency * ms })
                    / 1000) as u64
            },
        ),
{
    if frequency == 0 {
        return None;
    }
    let product = match frequency.checked_mul(ms) {
        Some(v) => v,
        None => u64::MAX,
    };
    let counts = product / 1000;
    let target = match start.checked_add(counts) {
        Some(v) => v,
        None => u64::MAX,
    };
    Some(target)
}

/// The generic timer's monotonic counters.
#[derive(Clone, Copy, Debug, PartialEq, Eq, Structural)]
pub struct TimerState {
    pub initialized: bool,
    pub ticks: u64,
    pub real_deliveries: u64,
    pub context_observed: bool,
    pub tick_overflow: bool,
    pub spurious: u64,
    pub frequency: u64,
    pub interval: u64,
}

impl TimerState {
    /// All counters zero, not yet initialized.
    pub fn new() -> (t: TimerState)
        ensures
            t == (TimerState {
                initialized: false,
                ticks: 0,
                real_deliveries: 0,
                context_observed: false,
                tick_overflow: false,
                spurious: 0,
                frequency: 0,
                interval: 0,
            }),
    {
        TimerState {
            initialized: false,
            ticks: 0,
            real_deliveries: 0,
            context_observed: false,
            tick_overflow: false,
            spurious: 0,
            frequency: 0,
            interval: 0,
        }
    }

    /// Initializes against counter frequency `freq`, returning the frequency
    /// and the interval to program.
    pub fn initialize(&mut self, freq: u64) -> (result: Result<(u64, u64), TimerError>)
        ensures
            old(self).initialized ==> result == Err::<(u64, u64), TimerError>(
                TimerError::AlreadyInitialized,
            ) && *final(self) == *old(self),
            !old(self).initialized ==> match interval_for(freq, FREQUENCY_HZ) {
                Err(e) => result == Err::<(u64, u64), TimerError>(e) && *final(self) == (
                TimerState { initialized: true, ..*old(self) }),
                Ok(i) => result == Ok::<(u64, u64), TimerError>((freq, i)) && *final(self) == (
                TimerState { initialized: true, frequency: freq, interval: i, ..*old(self) }),
            },
    {
        if self.initialized {
            return Err(TimerError::AlreadyInitialized);
        }
        self.initialized = true;
        let interval = match calculate_interval(freq, FREQUENCY_HZ) {
            Ok(i) => i,
            Err(e) => return Err(e),
        };
        self.frequency = freq;
        self.interval = interval;
        Ok((freq, interval))
    }

    /// The timer interrupt body; returns the interval to reprogram, if any.
    pub fn handle_tick(&mut self) -> (reprogram: Option<u64>)
        ensures
            final(self).context_observed,
            final(self).ticks >= old(self).ticks,
            !old(self).initialized ==> reprogram.is_none() && *final(self) == (TimerState {
                context_observed: true,
                ..*old(self)
            }),
            old(self).initialized ==> {
                &&& reprogram == (if old(self).interval != 0 {
                    Some(old(self).interval)
                } else {
                    None
                })
                &&& final(self).real_deliveries == (old(self).real_deliveries + 1) % 0x1_0000_0000_0000_0000
                &&& old(self).ticks < u64::MAX ==> final(self).ticks == old(self).ticks + 1
                    && final(self).tick_overflow == old(self).tick_overflow
                &&& old(self).ticks == u64::MAX ==> final(self).ticks == u64::MAX
                    && final(self).tick_overflow
            },
    {
        self.context_observed = true;
        if !self.initialized {
            return None;
        }
        let reprogram = if self.interval != 0 {
            Some(self.interval)
        } else {
            None
        };
        self.real_deliveries = self.real_deliveries.wrapping_add(1);
        match self.ticks.checked_add(1) {
            Some(v) => self.ticks = v,
            None => self.tick_overflow = true,
        }
        reprogram
    }

    /// Delivered ticks.
    pub fn ticks(&self) -> (t: u64)
        ensures
            t == self.ticks,
    {
        self.ticks
    }

    /// Ticks as saturated monotonic milliseconds.
    pub fn uptime_milliseconds(&self) -> (ms: u64)
        ensures
            ms == (if self.ticks * TICK_MILLISECONDS > u64::MAX {
                u64::MAX as int
            } else {
                self.ticks * TICK_MILLISECONDS
            }),
    {
        match self.ticks.checked_mul(TICK_MILLISECONDS) {
            Some(v) => v,
            None => u64::MAX,
        }
    }

    /// Timer deliveries observed after initialization.
    pub fn real_deliveries(&self) -> (n: u64)
        ensures
            n == self.real_deliveries,
    {
        self.real_deliveries
    }

    /// Whether the handler ran.
    pub fn context_observed(&self) -> (b: bool)
        ensures
            b == self.context_observed,
    {
        self.context_observed
    }

    /// Whether the tick counter saturated.
    pub fn tick_overflowed(&self) -> (b: bool)
        ensures
            b == self.tick_overflow,
    {
        self.tick_overflow
    }

    /// Whether initialization was claimed.
    pub fn is_initialized(&self) -> (b: bool)
        ensures
            b == self.initialized,
    {
        self.initialized
    }

    /// Spurious timer dispatches.
    pub fn spurious_count(&self) -> (n: u64)
        ensures
            n == self.spurious,
    {
        self.spurious
    }
}

} // verus!
