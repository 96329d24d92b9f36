//! Timers: conversion of CPU tick counts into elapsed time, and the timer
//! driver's clock configuration.

use vstd::prelude::*;

verus! {

/// Ticks elapsed from `start` to `end`, across a wrap of the counter.
pub open spec fn elapsed_ticks(start: u64, end: u64) -> int {
    if end >= start {
        end - start
    } else {
        end + 0x1_0000_0000_0000_0000 - start
    }
}

/// Elapsed time in units of `1 / per_second` seconds; zero for a clock of
/// unknown (zero) frequency.
pub open spec fn elapsed_in(freq: u64, start: u64, end: u64, per_second: int) -> int {
    if freq == 0 {
        0
    } else {
        elapsed_ticks(start, end) * per_second / (freq as int)
    }
}

/// Microseconds elapsed between two tick values of a clock of `freq` Hz.
pub fn elapsed_us_at(freq: u64, start: u64, end: u64) -> (r: u64)
    requires
        freq == 0 || elapsed_ticks(start, end) * 1_000_000 <= u64::MAX,
    ensures
        r == elapsed_in(freq, start, end, 1_000_000),
{
    let elapsed = end.wrapping_sub(start);
    assert(elapsed == elapsed_ticks(start, end)) by (bit_vector)
        requires
            elapsed == end.wrapping_sub(start),
    ;
    if freq == 0 {
        return 0;
    }
    elapsed * 1_000_000 / freq
}

/// Milliseconds elapsed between two tick values of a clock of `freq` Hz.
pub fn elapsed_ms_at(freq: u64, start: u64, end: u64) -> (r: u64)
    requires
        freq == 0 || elapsed_ticks(start, end) * 1_000 <= u64::MAX,
    ensures
        r == elapsed_in(freq, start, end, 1_000),
{
    let elapsed = end.wrapping_sub(start);
    assert(elapsed == elapsed_ticks(start, end)) by (bit_vector)
        requires
            elapsed == end.wrapping_sub(start),
    ;
    if freq == 0 {
        return 0;
    }
    elapsed * 1_000 / freq
}

/// Timer peripheral trait providing tick counters and elapsed time helpers.
pub trait Timers {
    /// The clock frequency that the timer reports.
    spec fn spec_clock_freq(&self) -> u64;

    /// Get the current CPU tick count (monotonically increasing).
    fn ticks(&self) -> u64;

    /// Get the CPU clock frequency in Hz.
    fn clock_freq_hz(&self) -> (r: u64)
        ensures
            r == self.spec_clock_freq(),
    ;

    /// Get elapsed time in microseconds between two tick values.
    fn elapsed_us(&self, start: u64, end: u64) -> (r: u64)
        requires
            self.spec_clock_freq() == 0 || elapsed_ticks(start, end) * 1_000_000 <= u64::MAX,
        ensures
            r == elapsed_in(self.spec_clock_freq(), start, end, 1_000_000),
    {
        elapsed_us_at(self.clock_freq_hz(), start, end)
    }

    /// Get elapsed time in milliseconds between two tick values.
    fn elapsed_ms(&self, start: u64, end: u64) -> (r: u64)
        requires
            self.spec_clock_freq() == 0 || elapsed_ticks(start, end) * 1_000 <= u64::MAX,
        ensures
            r == elapsed_in(self.spec_clock_freq(), start, end, 1_000),
    {
        elapsed_ms_at(self.clock_freq_hz(), start, end)
    }
}

/// Estimated CPU clock frequency in Hz for the emulator.
pub const EMULATOR_CPU_CLOCK_HZ: u64 = 1_000_000;

/// The network coprocessor's timer: its clock frequency. The tick count is
/// the CPU's cycle counter, which the platform reads.
pub struct TimerDriver {
    clock_freq: u64,
}

impl TimerDriver {
    pub fn new() -> (r: Self)
        ensures
            r.spec_freq() == EMULATOR_CPU_CLOCK_HZ,
    {
        TimerDriver { clock_freq: EMULATOR_CPU_CLOCK_HZ }
    }

    pub fn with_freq(clock_freq_hz: u64) -> (r: Self)
        ensures
            r.spec_freq() == clock_freq_hz,
    {
        TimerDriver { clock_freq: clock_freq_hz }
    }

    pub closed spec fn spec_freq(&self) -> u64 {
        self.clock_freq
    }

    pub fn clock_freq_hz(&self) -> (r: u64)
        ensures
            r == self.spec_freq(),
    {
        self.clock_freq
    }

    /// Microseconds elapsed between two tick values.
    pub fn elapsed_us(&self, start: u64, end: u64) -> (r: u64)
        requires
            self.spec_freq() == 0 || elapsed_ticks(start, end) * 1_000_000 <= u64::MAX,
        ensures
            r == elapsed_in(self.spec_freq(), start, end, 1_000_000),
    {
        elapsed_us_at(self.clock_freq, start, end)
    }

    /// Milliseconds elapsed between two tick values.
    pub fn elapsed_ms(&self, start: u64, end: u64) -> (r: u64)
        requires
            self.spec_freq() == 0 || elapsed_ticks(start, end) * 1_000 <= u64::MAX,
        ensures
            r == elapsed_in(self.spec_freq(), start, end, 1_000),
    {
        elapsed_ms_at(self.clock_freq, start, end)
    }
}

impl Default for TimerDriver {
    fn default() -> (r: Self)
        ensures
            r.spec_freq() == EMULATOR_CPU_CLOCK_HZ,
    {
        Self::new()
    }
}

} // verus!
