//! BSP local APIC periodic timer policy and monotonic ticks.
use vstd::prelude::*;
use crate::x86_64::apic::{
    register_at, ApicCounters, ApicError, LocalApic, LVT_MASKED, LVT_TIMER, TIMER_CURRENT,
    TIMER_DIVIDE, TIMER_DIVIDE_BY_16, TIMER_INITIAL, TIMER_PERIODIC, TIMER_VECTOR,
};
use crate::x86_64::pit::PitError;

verus! {

/// Timer frequency.
pub const FREQUENCY_HZ: u64 = 100;
/// Duration represented by one tick.
pub const TICK_MILLISECONDS: u64 = 10;
/// Length of the PIT reference window used for calibration.
pub const REFERENCE_MILLISECONDS: u64 = 10;

/// Timer setup failures.
#[derive(Clone, Copy, Debug, PartialEq, Eq, Structural)]
pub enum TimerError {
    Pit(crate::x86_64::pit::PitError),
    Apic(crate::x86_64::apic::ApicError),
    CalibrationZero,
    CalibrationOverflow,
    TimerInitialCountZero,
    TimerNotInitialized,
    AlreadyInitialized,
}

/// APIC counts per tick, or why calibration fails.
pub open spec fn calibration(elapsed: u32, reference_ms: u64) -> Result<u32, TimerError> {
    if elapsed == 0 || reference_ms == 0 {
        Err(TimerError::CalibrationZero)
    } else if (elapsed * 1000) / (reference_ms as int) == 0 || (elapsed * 1000) / (reference_ms as int) > u32::MAX {
        Err(TimerError::CalibrationOverflow)
    } else {
        Ok(((elapsed * 1000) / (reference_ms as int)) as u32)
    }
}

/// Pure APIC-count calibration arithmetic.
pub fn counts_per_tick(elapsed: u32, reference_ms: u64) -> (result: Result<u32, TimerError>)
    ensures
        result == calibration(elapsed, reference_ms),
{
    if elapsed == 0 || reference_ms == 0 {
        return Err(TimerError::CalibrationZero);
    }
    let numerator = (elapsed as u64) * 1000;
    let result = numerator / reference_ms;
    if result == 0 || result > u32::MAX as u64 {
        return Err(TimerError::CalibrationOverflow);
    }
    Ok(result as u32)
}

/// The initial count programmed after a calibration run in which the APIC
/// counted down from `u32::MAX` to `current`.
pub fn initial_count(current: u32) -> (result: Result<u32, TimerError>)
    ensures
        result == calibration((u32::MAX - current) as u32, TICK_MILLISECONDS),
{
    let elapsed = u32::MAX - current;
    counts_per_tick(elapsed, TICK_MILLISECONDS)
}

/// Return configured frequency.
pub fn frequency_hz() -> (f: u64)
    ensures
        f == FREQUENCY_HZ,
{
    FREQUENCY_HZ
}

/// Return configured tick duration.
pub fn tick_milliseconds() -> (t: u64)
    ensures
        t == TICK_MILLISECONDS,
{
    TICK_MILLISECONDS
}

/// What the timer interrupt handler must do after updating the counters.
#[derive(Clone, Copy, Debug, PartialEq, Eq, Structural)]
pub enum TickAction {
    /// No EOI is sent: the interrupt context could not be entered, or the
    /// APIC is not ready.
    Ignore,
    /// Acknowledge the interrupt at the local APIC.
    Eoi,
}

/// The timer's monotonic counters.
#[derive(Clone, Copy, Debug, PartialEq, Eq, Structural)]
pub struct TimerState {
    pub initialized: bool,
    pub ticks: u64,
    pub real_deliveries: u64,
    pub context_observed: bool,
    pub spurious: u64,
    pub tick_overflow: bool,
}

/// What completing a claimed initialization gives: the reference count
/// and the calibrated initial count, with the periodic program at its
/// register addresses, or why it fails.
pub open spec fn initialization_result(
    base: u64,
    reference: Result<u16, PitError>,
    current: Result<u32, ApicError>,
) -> Result<((u32, u32), Seq<(u64, u32)>), TimerError> {
    match reference {
        Err(e) => Err(TimerError::Pit(e)),
        Ok(r) => match current {
            Err(e) => Err(TimerError::Apic(e)),
            Ok(c) => match calibration((u32::MAX - c) as u32, TICK_MILLISECONDS) {
                Err(e) => Err(e),
                Ok(n) => match (
                    register_at(base, TIMER_DIVIDE),
                    register_at(base, LVT_TIMER),
                    register_at(base, TIMER_INITIAL),
                ) {
                    (Ok(divide), Ok(lvt), Ok(initial)) => Ok(
                        (
                            (r as u32, n),
                            seq![
                                (divide, TIMER_DIVIDE_BY_16),
                                (lvt, (TIMER_VECTOR as u32) | TIMER_PERIODIC | LVT_MASKED),
                                (initial, n),
                                (lvt, (TIMER_VECTOR as u32) | TIMER_PERIODIC),
                            ],
                        ),
                    ),
                    (Err(e), _, _) => Err(TimerError::Apic(e)),
                    (Ok(_), Err(e), _) => Err(TimerError::Apic(e)),
                    (Ok(_), Ok(_), Err(e)) => Err(TimerError::Apic(e)),
                },
            },
        },
    }
}

impl TimerState {
    /// All counters zero, not yet initialized.
    pub fn new() -> (t: TimerState)
        ensures
            t == (TimerState {
                initialized: false,
                ticks: 0,
                real_deliveries: 0,
                context_observed: false,
                spurious: 0,
                tick_overflow: false,
            }),
    {
        TimerState {
            initialized: false,
            ticks: 0,
            real_deliveries: 0,
            context_observed: false,
            spurious: 0,
            tick_overflow: false,
        }
    }

    /// Claims initialization: fails if the timer was already initialized.
    pub fn begin_initialize(&mut self) -> (result: Result<(), TimerError>)
        ensures
            old(self).initialized ==> result == Err::<(), TimerError>(TimerError::AlreadyInitialized)
                && *final(self) == *old(self),
            !old(self).initialized ==> result == Ok::<(), TimerError>(()) && *final(self) == (
            TimerState { initialized: true, ..*old(self) }),
    {
        if self.initialized {
            return Err(TimerError::AlreadyInitialized);
        }
        self.initialized = true;
        Ok(())
    }

    /// Claims initialization and gives the writes that prepare calibration,
    /// each at its register's address: the timer masked, the divider, and
    /// the largest initial count. When a register has no address the claim
    /// is released again.
    pub fn start_calibration(&mut self, apic: LocalApic) -> (result: Result<[(u64, u32); 3], TimerError>)
        ensures
            old(self).initialized ==> result == Err::<[(u64, u32); 3], TimerError>(
                TimerError::AlreadyInitialized,
            ) && *final(self) == *old(self),
            !old(self).initialized ==> match (
                register_at(apic.virtual_base, LVT_TIMER),
                register_at(apic.virtual_base, TIMER_DIVIDE),
                register_at(apic.virtual_base, TIMER_INITIAL),
            ) {
                (Ok(lvt), Ok(divide), Ok(initial)) => result matches Ok(w) && w@ == seq![
                    (lvt, LVT_MASKED),
                    (divide, TIMER_DIVIDE_BY_16),
                    (initial, u32::MAX),
                ] && *final(self) == (TimerState { initialized: true, ..*old(self) }),
                (Err(e), _, _) => result == Err::<[(u64, u32); 3], TimerError>(TimerError::Apic(e))
                    && *final(self) == *old(self),
                (Ok(_), Err(e), _) => result == Err::<[(u64, u32); 3], TimerError>(TimerError::Apic(e))
                    && *final(self) == *old(self),
                (Ok(_), Ok(_), Err(e)) => result == Err::<[(u64, u32); 3], TimerError>(
                    TimerError::Apic(e),
                ) && *final(self) == *old(self),
            },
    {
        if self.initialized {
            return Err(TimerError::AlreadyInitialized);
        }
        let lvt = match apic.register_address(LVT_TIMER) {
            Ok(a) => a,
            Err(e) => return Err(TimerError::Apic(e)),
        };
        let divide = match apic.register_address(TIMER_DIVIDE) {
            Ok(a) => a,
            Err(e) => return Err(TimerError::Apic(e)),
        };
        let initial = match apic.register_address(TIMER_INITIAL) {
            Ok(a) => a,
            Err(e) => return Err(TimerError::Apic(e)),
        };
        self.initialized = true;
        let w = [(lvt, LVT_MASKED), (divide, TIMER_DIVIDE_BY_16), (initial, u32::MAX)];
        assert(w@ == seq![(lvt, LVT_MASKED), (divide, TIMER_DIVIDE_BY_16), (initial, u32::MAX)]);
        Ok(w)
    }

    /// Completes a claimed initialization from the PIT reference wait and the
    /// APIC count read after it: the calibrated initial count, the reference
    /// count, and the periodic program at its register addresses (the timer
    /// stays masked until the initial count is written). Every failure
    /// releases the claim.
    pub fn complete_initialize(
        &mut self,
        apic: LocalApic,
        reference: Result<u16, PitError>,
        current: Result<u32, ApicError>,
    ) -> (result: Result<((u32, u32), [(u64, u32); 4]), TimerError>)
        requires
            old(self).initialized,
        ensures
            result is Ok ==> *final(self) == *old(self),
            result is Err ==> *final(self) == (TimerState { initialized: false, ..*old(self) }),
            match initialization_result(apic.virtual_base, reference, current) {
                Ok((counts, w)) => result matches Ok((c, p)) && c == counts && p@ == w,
                Err(e) => result == Err::<((u32, u32), [(u64, u32); 4]), TimerError>(e),
            },
    {
        let result = self.calibrated_program(apic, reference, current);
        if result.is_err() {
            self.initialized = false;
        }
        result
    }

    /// What `complete_initialize` returns, before the claim is settled.
    fn calibrated_program(
        &self,
        apic: LocalApic,
        reference: Result<u16, PitError>,
        current: Result<u32, ApicError>,
    ) -> (result: Result<((u32, u32), [(u64, u32); 4]), TimerError>)
        ensures
            match initialization_result(apic.virtual_base, reference, current) {
                Ok((counts, w)) => result matches Ok((c, p)) && c == counts && p@ == w,
                Err(e) => result == Err::<((u32, u32), [(u64, u32); 4]), TimerError>(e),
            },
    {
        let reference = match reference {
            Ok(r) => r,
            Err(e) => return Err(TimerError::Pit(e)),
        };
        let current = match current {
            Ok(c) => c,
            Err(e) => return Err(TimerError::Apic(e)),
        };
        let initial = match initial_count(current) {
            Ok(n) => n,
            Err(e) => return Err(e),
        };
        if initial == 0 {
            return Err(TimerError::TimerInitialCountZero);
        }
        let program = match apic.program_timer(initial) {
            Ok(w) => w,
            Err(e) => return Err(TimerError::Apic(e)),
        };
        let divide = match apic.register_address(program[0].0) {
            Ok(a) => a,
            Err(e) => return Err(TimerError::Apic(e)),
        };
        let lvt = match apic.register_address(program[1].0) {
            Ok(a) => a,
            Err(e) => return Err(TimerError::Apic(e)),
        };
        let count = match apic.register_address(program[2].0) {
            Ok(a) => a,
            Err(e) => return Err(TimerError::Apic(e)),
        };
        let w = [(divide, program[0].1), (lvt, program[1].1), (count, program[2].1), (lvt, program[3].1)];
        assert(w@ == seq![
            (divide, TIMER_DIVIDE_BY_16),
            (lvt, (TIMER_VECTOR as u32) | TIMER_PERIODIC | LVT_MASKED),
            (count, initial),
            (lvt, (TIMER_VECTOR as u32) | TIMER_PERIODIC),
        ]);
        Ok(((reference as u32, initial), w))
    }

    /// Releases the initialization claim after a failed setup.
    pub fn abandon_initialize(&mut self)
        ensures
            *final(self) == (TimerState { initialized: false, ..*old(self) }),
    {
        self.initialized = false;
    }

    /// The timer interrupt body. `entered` tells whether the interrupt context
    /// could be entered; inside it the tick is counted and the interrupt is
    /// acknowledged through `apic`, which sends (and counts) the EOI only
    /// once the APIC is ready. The action says whether an EOI is sent.
    pub fn handle_tick(&mut self, entered: bool, apic: &mut ApicCounters) -> (action: TickAction)
        ensures
            final(self).ticks >= old(self).ticks,
            action == TickAction::Eoi <==> entered && old(apic).ready,
            entered && old(apic).ready ==> *final(apic) == (ApicCounters {
                eoi_count: ((old(apic).eoi_count + 1) % 0x1_0000_0000_0000_0000) as u64,
                ..*old(apic)
            }),
            !(entered && old(apic).ready) ==> *final(apic) == *old(apic),
            !entered ==> *final(self) == *old(self),
            entered ==> final(self).context_observed,
            entered && !old(self).initialized ==> *final(self) == (TimerState {
                context_observed: true,
                ..*old(self)
            }),
            entered && old(self).initialized ==> {
                &&& final(self).real_deliveries == (old(self).real_deliveries + 1) % 0x1_0000_0000_0000_0000
                &&& old(self).ticks < u64::MAX ==> final(self).ticks == old(self).ticks + 1
                    && final(self).tick_overflow == old(self).tick_overflow
                &&& old(self).ticks == u64::MAX ==> final(self).ticks == u64::MAX
                    && final(self).tick_overflow
                &&& final(self).initialized && final(self).spurious == old(self).spurious
                &&& final(self).context_observed
            },
    {
        if !entered {
            return TickAction::Ignore;
        }
        self.context_observed = true;
        if self.initialized {
            self.real_deliveries = self.real_deliveries.wrapping_add(1);
            match self.ticks.checked_add(1) {
                Some(v) => self.ticks = v,
                None => self.tick_overflow = true,
            }
        }
        if apic.timer_eoi() {
            TickAction::Eoi
        } else {
            TickAction::Ignore
        }
    }

    /// A spurious dispatch: counted without EOI.
    pub fn handle_spurious(&mut self, entered: bool)
        ensures
            !entered ==> *final(self) == *old(self),
            entered ==> *final(self) == (TimerState {
                spurious: ((old(self).spurious + 1) % 0x1_0000_0000_0000_0000) as u64,
                ..*old(self)
            }),
    {
        if entered {
            self.spurious = self.spurious.wrapping_add(1);
        }
    }

    /// Delivered ticks.
    pub fn ticks(&self) -> (t: u64)
        ensures
            t == self.ticks,
    {
        self.ticks
    }

    /// Ticks as saturated monotonic milliseconds.
    pub fn uptime_milliseconds(&self) -> (ms: u64)
        ensures
            ms == (if self.ticks * TICK_MILLISECONDS > u64::MAX {
                u64::MAX as int
            } else {
                self.ticks * TICK_MILLISECONDS
            }),
    {
        match self.ticks.checked_mul(TICK_MILLISECONDS) {
            Some(v) => v,
            None => u64::MAX,
        }
    }

    /// Timer deliveries observed after initialization.
    pub fn real_deliveries(&self) -> (n: u64)
        ensures
            n == self.real_deliveries,
    {
        self.real_deliveries
    }

    /// Whether the handler entered interrupt context.
    pub fn context_observed(&self) -> (b: bool)
        ensures
            b == self.context_observed,
    {
        self.context_observed
    }

    /// Whether the tick counter saturated.
    pub fn tick_overflowed(&self) -> (b: bool)
        ensures
            b == self.tick_overflow,
    {
        self.tick_overflow
    }

    /// Whether initialization completed.
    pub fn is_initialized(&self) -> (b: bool)
        ensures
            b == self.initialized,
    {
        self.initialized
    }

    /// Spurious dispatches.
    pub fn spurious_count(&self) -> (n: u64)
        ensures
            n == self.spurious,
    {
        self.spurious
    }
}

} // verus!
