//! The timer of each processor: a hundred ticks a second.
use vstd::prelude::*;

verus! {

pub const TICKS_PER_SECOND: u64 = 100;

/// How many ticks there were, on all processors and on each, and how many counts of the
/// counter lie between two.
#[derive(Clone, Copy, Debug)]
pub struct Timer {
    pub ticks: u64,
    pub interval: u64,
    pub per_cpu: [u64; 4],
}

/// The processor that a tick counts for: those behind the last count for it.
pub open spec fn counted_cpu(cpu: u32) -> int {
    if cpu < 3 {
        cpu as int
    } else {
        3
    }
}

impl Timer {
    /// A timer that is not set up.
    pub fn new() -> (timer: Self)
        ensures
            timer.ticks == 0,
            timer.interval == 0,
            timer.per_cpu@ == seq![0u64, 0, 0, 0],
    {
        let timer = Timer { ticks: 0, interval: 0, per_cpu: [0, 0, 0, 0] };
        assert(timer.per_cpu@ =~= seq![0u64, 0, 0, 0]);
        timer
    }

    /// Sets the timer up for a counter of a frequency, if its interval fits in 32 bits and
    /// is not zero.
    pub fn init(&mut self, frequency: u64) -> (ready: bool)
        ensures
            ready == (0 < frequency as int / 100 <= u32::MAX),
            final(self).interval == (if ready {
                (frequency / 100) as u64
            } else {
                old(self).interval
            }),
            final(self).ticks == old(self).ticks,
            final(self).per_cpu == old(self).per_cpu,
    {
        let interval: u64 = frequency / TICKS_PER_SECOND;
        if interval == 0 || interval > u32::MAX as u64 {
            return false;
        }
        self.interval = interval;
        true
    }

    /// Whether another processor has to set its timer.
    pub fn init_secondary(&self) -> (ready: bool)
        ensures
            ready == (self.interval != 0),
    {
        self.interval != 0
    }

    /// A tick on a processor, and the counts to the next.
    pub fn handle_interrupt(&mut self, cpu: u32) -> (interval: u64)
        ensures
            final(self).ticks == old(self).ticks.wrapping_add(1),
            final(self).per_cpu@ == old(self).per_cpu@.update(
                counted_cpu(cpu),
                old(self).per_cpu@[counted_cpu(cpu)].wrapping_add(1),
            ),
            final(self).interval == old(self).interval,
            interval == old(self).interval,
    {
        self.ticks = self.ticks.wrapping_add(1);
        let index: usize = if cpu < 3 {
            cpu as usize
        } else {
            3
        };
        self.per_cpu[index] = self.per_cpu[index].wrapping_add(1);
        self.interval
    }

    pub fn cpu_ticks(&self, cpu: usize) -> (ticks: u64)
        ensures
            ticks == (if cpu < 4 {
                self.per_cpu@[cpu as int]
            } else {
                0
            }),
    {
        if cpu < 4 {
            self.per_cpu[cpu]
        } else {
            0
        }
    }

    pub fn ticks(&self) -> (ticks: u64)
        ensures
            ticks == self.ticks,
    {
        self.ticks
    }

    /// Whether each of the processors that have started has ticked.
    pub fn all_ticked(&self, online: usize) -> (all: bool)
        ensures
            all == (forall|cpu: int| 0 <= cpu < online && cpu < 4 ==> #[trigger] self.per_cpu@[cpu] != 0),
    {
        let mut cpu: usize = 0;
        while cpu < online && cpu < 4
            invariant
                cpu <= 4,
                forall|i: int| 0 <= i < cpu ==> #[trigger] self.per_cpu@[i] != 0,
            decreases 4 - cpu,
        {
            if self.per_cpu[cpu] == 0 {
                return false;
            }
            cpu += 1;
        }
        true
    }
}

} // verus!
