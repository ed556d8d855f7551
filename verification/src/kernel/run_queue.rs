//! Priority run queues: one level per priority, round robin within a level.
use crate::bits;
use crate::kernel::task::MAX_CPUS;
use vstd::prelude::*;
use vstd::std_specs::bits::*;

verus! {

pub const PRIORITY_LEVELS: usize = 64;

pub const MAX_RUNNABLE_THREADS: usize = 16;

/// The threads that are ready to run on one processor.
#[derive(Clone, Copy)]
pub struct RunQueue {
    nonempty: u64,
    queued: u16,
    buckets: [u16; 64],
    levels: [u8; 16],
    cursors: [u8; 64],
}

/// What a run queue holds: for each thread its priority, if it is queued, and for
/// each priority the thread with which the next round starts.
#[verifier::ext_equal]
pub struct RunQueueView {
    pub priority: Seq<Option<u8>>,
    pub cursor: Seq<u8>,
}

impl RunQueueView {
    /// There is a place for each thread, which is queued at one of the priorities if it is
    /// queued, and a round for each priority, which starts with one of the threads.
    pub open spec fn wf(self) -> bool {
        &&& self.priority.len() == 16
        &&& self.cursor.len() == 64
        &&& forall|thread: int|
            0 <= thread < 16 ==> ((#[trigger] self.priority[thread]) matches Some(level)
                ==> level < 64)
        &&& forall|level: int| 0 <= level < 64 ==> #[trigger] self.cursor[level] < 16
    }

    pub open spec fn empty() -> Self {
        RunQueueView {
            priority: Seq::new(16, |thread: int| None),
            cursor: Seq::new(64, |level: int| 0u8),
        }
    }

    pub open spec fn queued_at(self, thread: int, level: int) -> bool {
        0 <= thread < 16 && self.priority[thread] == Some(level as u8)
    }

    /// The highest priority at which a thread is queued is `level`.
    pub open spec fn is_highest(self, level: int) -> bool {
        &&& 0 <= level < 64
        &&& exists|thread: int| #[trigger] self.queued_at(thread, level)
        &&& forall|thread: int, other: int|
            level < other < 64 ==> !#[trigger] self.queued_at(thread, other)
    }

    /// The distance from the start of the round of `level` to `thread`.
    pub open spec fn turn(self, thread: int, level: int) -> int {
        (thread - self.cursor[level]) % 16
    }

    /// `thread` is the one to run next: its priority is the highest, and in the
    /// round of that priority its turn comes first.
    pub open spec fn is_next(self, thread: int) -> bool {
        exists|level: int| #[trigger]
            self.is_highest(level) && self.queued_at(thread, level) && (forall|other: int|
                #[trigger] self.queued_at(other, level) ==> self.turn(thread, level) <= self.turn(
                    other,
                    level,
                ))
    }

    pub open spec fn without(self, thread: int) -> Self {
        RunQueueView { priority: self.priority.update(thread, None), ..self }
    }

    pub open spec fn with(self, thread: int, priority: u8) -> Self {
        RunQueueView { priority: self.priority.update(thread, Some(priority)), ..self }
    }

    /// After `thread` was taken: it is gone, and the next round of its priority
    /// starts behind it.
    pub open spec fn after_pop(self, thread: int) -> Self {
        let level = self.priority[thread].unwrap() as int;
        RunQueueView {
            priority: self.priority.update(thread, None),
            cursor: self.cursor.update(level, ((thread + 1) % 16) as u8),
        }
    }
}

/// How many of the first `n` threads are queued.
pub open spec fn queued_count(priority: Seq<Option<u8>>, n: nat) -> nat
    decreases n,
{
    if n == 0 {
        0
    } else {
        queued_count(priority, (n - 1) as nat) + (if priority[n - 1] is Some {
            1nat
        } else {
            0nat
        })
    }
}

impl View for RunQueue {
    type V = RunQueueView;

    closed spec fn view(&self) -> RunQueueView {
        RunQueueView {
            priority: Seq::new(
                16,
                |thread: int|
                    if bits::bit16(self.queued, thread) {
                        Some((self.levels@[thread] % 64) as u8)
                    } else {
                        None
                    },
            ),
            cursor: Seq::new(64, |level: int| (self.cursors@[level] % 16) as u8),
        }
    }
}

impl RunQueue {
    /// A thread has its bit in the bucket of its level and in no other; a level
    /// is marked as non-empty exactly when its bucket holds a thread.
    #[verifier::type_invariant]
    spec fn consistent(self) -> bool {
        &&& forall|thread: int, level: int|
            0 <= thread < 16 && 0 <= level < 64 ==> (#[trigger] bits::bit16(
                self.buckets@[level],
                thread,
            ) <==> bits::bit16(self.queued, thread) && self.levels@[thread] == level)
        &&& forall|level: int|
            0 <= level < 64 ==> (#[trigger] bits::bit64(self.nonempty, level) <==> self.buckets@[level]
                != 0)
        &&& forall|thread: int|
            0 <= thread < 16 && bits::bit16(self.queued, thread) ==> #[trigger] self.levels@[thread]
                < 64
    }

    /// The view of any queue is in order.
    pub proof fn lemma_wf(&self)
        ensures
            self@.wf(),
            self@.priority.len() == 16,
            self@.cursor.len() == 64,
            forall|thread: int|
                0 <= thread < 16 ==> ((#[trigger] self@.priority[thread]) matches Some(level)
                    ==> level < 64),
            forall|level: int| 0 <= level < 64 ==> #[trigger] self@.cursor[level] < 16,
    {
    }

    pub fn new() -> (queue: Self)
        ensures
            queue@ == RunQueueView::empty(),
    {
        proof {
            bits::lemma_zero64(0);
            bits::lemma_zero16(0);
        }
        let queue = Self {
            nonempty: 0,
            queued: 0,
            buckets: [0u16; 64],
            levels: [0u8; 16],
            cursors: [0u8; 64],
        };
        assert(queue@ =~= RunQueueView::empty());
        queue
    }

    pub fn clear(&mut self)
        ensures
            final(self)@ == RunQueueView::empty(),
    {
        *self = Self::new();
    }

    /// Queues `thread` at `priority`, out of the level where it was before.
    pub fn enqueue(&mut self, thread: usize, priority: u8) -> (queued: bool)
        ensures
            queued == (thread < MAX_RUNNABLE_THREADS && priority < PRIORITY_LEVELS),
            final(self)@ == (if queued {
                old(self)@.with(thread as int, priority)
            } else {
                old(self)@
            }),
    {
        if thread >= MAX_RUNNABLE_THREADS || priority as usize >= PRIORITY_LEVELS {
            return false;
        }
        self.remove(thread);
        let ghost before = *self;
        proof {
            use_type_invariant(&*self);
        }
        let thread_bit: u16 = 1u16 << (thread as u16);
        let level: usize = priority as usize;
        let mut buckets: [u16; 64] = self.buckets;
        buckets[level] = buckets[level] | thread_bit;
        let mut levels: [u8; 16] = self.levels;
        levels[thread] = priority;
        proof {
            assert(!bits::bit16(before.queued, thread as int)) by {
                assert(before@.priority[thread as int] is None);
            }
            assert forall|j: int| 0 <= j < 16 implies #[trigger] bits::bit16(
                before.queued | thread_bit,
                j,
            ) == (j == thread || bits::bit16(before.queued, j)) by {
                bits::lemma_set_clear16(before.queued, thread as int, j);
            }
            assert forall|j: int| 0 <= j < 16 implies #[trigger] bits::bit16(
                buckets@[level as int],
                j,
            ) == (j == thread || bits::bit16(before.buckets@[level as int], j)) by {
                bits::lemma_set_clear16(before.buckets@[level as int], thread as int, j);
            }
            assert forall|j: int| 0 <= j < 64 implies #[trigger] bits::bit64(
                before.nonempty | (1u64 << (level as u64)),
                j,
            ) == (j == level || bits::bit64(before.nonempty, j)) by {
                bits::lemma_set_clear64(before.nonempty, level as int, j);
            }
            assert(bits::bit16(buckets@[level as int], thread as int));
            bits::lemma_zero16(buckets@[level as int]);
        }
        *self = Self {
            nonempty: self.nonempty | (1u64 << (level as u64)),
            queued: self.queued | thread_bit,
            buckets,
            levels,
            cursors: self.cursors,
        };
        proof {
            let expected = old(self)@.with(thread as int, priority);
            assert forall|t: int| 0 <= t < 16 implies self@.priority[t] == expected.priority[t] by {
                assert(bits::bit16(self.queued, t) == (t == thread || bits::bit16(before.queued, t)));
                assert(before@.priority[t] == old(self)@.without(thread as int).priority[t]);
            }
            assert(self@.priority =~= expected.priority);
            assert(self@.cursor =~= expected.cursor);
        }
        true
    }

    pub fn remove(&mut self, thread: usize) -> (removed: bool)
        ensures
            removed == (thread < MAX_RUNNABLE_THREADS && old(self)@.priority[thread as int] is Some),
            final(self)@ == (if removed {
                old(self)@.without(thread as int)
            } else {
                old(self)@
            }),
            thread < MAX_RUNNABLE_THREADS ==> final(self)@ == old(self)@.without(thread as int),
    {
        if thread >= MAX_RUNNABLE_THREADS {
            return false;
        }
        proof {
            use_type_invariant(&*self);
            bits::lemma_set_clear16(self.queued, thread as int, 0);
        }
        let thread_bit: u16 = 1u16 << (thread as u16);
        if self.queued & thread_bit == 0 {
            assert(old(self)@ =~= old(self)@.without(thread as int));
            return false;
        }
        let ghost before = *self;
        let level: usize = self.levels[thread] as usize;
        let mut buckets: [u16; 64] = self.buckets;
        buckets[level] = buckets[level] & !thread_bit;
        let mut nonempty: u64 = self.nonempty;
        if buckets[level] == 0 {
            nonempty = nonempty & !(1u64 << (level as u64));
        }
        proof {
            assert forall|j: int| 0 <= j < 16 implies #[trigger] bits::bit16(
                before.queued & !thread_bit,
                j,
            ) == (j != thread && bits::bit16(before.queued, j)) by {
                bits::lemma_set_clear16(before.queued, thread as int, j);
            }
            assert forall|j: int| 0 <= j < 16 implies #[trigger] bits::bit16(
                buckets@[level as int],
                j,
            ) == (j != thread && bits::bit16(before.buckets@[level as int], j)) by {
                bits::lemma_set_clear16(before.buckets@[level as int], thread as int, j);
            }
            assert forall|j: int| 0 <= j < 64 implies #[trigger] bits::bit64(
                before.nonempty & !(1u64 << (level as u64)),
                j,
            ) == (j != level && bits::bit64(before.nonempty, j)) by {
                bits::lemma_set_clear64(before.nonempty, level as int, j);
            }
            assert(bits::bit16(before.buckets@[level as int], thread as int));
            bits::lemma_zero16(before.buckets@[level as int]);
        }
        *self = Self {
            nonempty,
            queued: self.queued & !thread_bit,
            buckets,
            levels: self.levels,
            cursors: self.cursors,
        };
        assert(self@ =~= old(self)@.without(thread as int));
        true
    }

    /// Takes the thread to run next: the one of the highest priority whose turn it
    /// is in the round of that priority.
    pub fn pop_highest(&mut self) -> (thread: Option<usize>)
        ensures
            match thread {
                Some(next) => next < MAX_RUNNABLE_THREADS && old(self)@.is_next(next as int)
                    && final(self)@ == old(self)@.after_pop(next as int),
                None => final(self)@ == old(self)@ && forall|t: int|
                    0 <= t < 16 ==> #[trigger] old(self)@.priority[t] is None,
            },
    {
        proof {
            use_type_invariant(&*self);
            bits::lemma_zero64(self.nonempty);
        }
        if self.nonempty == 0 {
            proof {
                assert forall|t: int| 0 <= t < 16 implies #[trigger] old(self)@.priority[t] is None by {
                    if bits::bit16(self.queued, t) {
                        let level = self.levels@[t] as int;
                        assert(bits::bit16(self.buckets@[level], t));
                        bits::lemma_zero16(self.buckets@[level]);
                        assert(!bits::bit64(self.nonempty, level));
                    }
                }
            }
            return None;
        }
        let mut level: usize = 63;
        while (self.nonempty >> (level as u64)) & 1 == 0
            invariant
                *self == *old(self),
                level < 64,
                self.nonempty != 0,
                forall|l: int| level < l < 64 ==> !#[trigger] bits::bit64(self.nonempty, l),
            decreases level,
        {
            proof {
                bits::lemma_zero64(self.nonempty);
                assert(!bits::bit64(self.nonempty, level as int));
                if level == 0 {
                    assert forall|l: int| 0 <= l < 64 implies !#[trigger] bits::bit64(
                        self.nonempty,
                        l,
                    ) by {}
                }
            }
            level -= 1;
        }
        proof {
            lemma_odd(self.nonempty >> (level as u64));
            assert(bits::bit64(self.nonempty, level as int));
            bits::lemma_zero16(self.buckets@[level as int]);
        }
        let bucket: u16 = self.buckets[level];
        let start: usize = self.cursors[level] as usize % MAX_RUNNABLE_THREADS;
        let after_cursor: u16 = bucket & (0xffffu16 << (start as u16));
        let thread: usize = if after_cursor != 0 {
            after_cursor.trailing_zeros() as usize
        } else {
            bucket.trailing_zeros() as usize
        };
        proof {
            lemma_first_in_round(bucket, after_cursor, start as int, thread as int);
            let view = old(self)@;
            assert forall|t: int, other: int| level < other < 64 implies !#[trigger] view.queued_at(
                t,
                other,
            ) by {
                if view.queued_at(t, other) {
                    assert(bits::bit16(self.buckets@[other], t));
                    bits::lemma_zero16(self.buckets@[other]);
                    assert(!bits::bit64(self.nonempty, other));
                }
            }
            assert(view.queued_at(thread as int, level as int)) by {
                assert(bits::bit16(self.buckets@[level as int], thread as int));
            }
            assert(view.is_highest(level as int));
            assert forall|other: int| #[trigger] view.queued_at(other, level as int) implies view.turn(
                thread as int,
                level as int,
            ) <= view.turn(other, level as int) by {
                assert(bits::bit16(self.buckets@[level as int], other));
            }
            assert(view.is_next(thread as int));
        }
        let mut cursors: [u8; 64] = self.cursors;
        cursors[level] = ((thread + 1) % MAX_RUNNABLE_THREADS) as u8;
        *self = Self {
            nonempty: self.nonempty,
            queued: self.queued,
            buckets: self.buckets,
            levels: self.levels,
            cursors,
        };
        self.remove(thread);
        assert(self@ =~= old(self)@.after_pop(thread as int));
        Some(thread)
    }

    pub fn len(&self) -> (length: usize)
        ensures
            length == queued_count(self@.priority, 16),
            length <= 16,
    {
        let mut length: usize = 0;
        let mut thread: usize = 0;
        while thread < MAX_RUNNABLE_THREADS
            invariant
                thread <= 16,
                length == queued_count(self@.priority, thread as nat),
                length <= thread,
            decreases 16 - thread,
        {
            if (self.queued >> (thread as u16)) & 1 == 1 {
                length += 1;
            }
            thread += 1;
        }
        length
    }
}

proof fn lemma_odd(x: u64)
    by (bit_vector)
    ensures
        x & 1 == 0 || x & 1 == 1,
{
}

/// The lowest set bit from `start` on, or else the lowest set bit, is the first in
/// the round that starts at `start`.
proof fn lemma_first_in_round(bucket: u16, after: u16, start: int, thread: int)
    requires
        0 <= start < 16,
        bucket != 0,
        after == bucket & (0xffffu16 << (start as u16)),
        thread == (if after != 0 {
            u16_trailing_zeros(after) as int
        } else {
            u16_trailing_zeros(bucket) as int
        }),
    ensures
        0 <= thread < 16,
        bits::bit16(bucket, thread),
        forall|other: int|
            0 <= other < 16 && #[trigger] bits::bit16(bucket, other) ==> (thread - start) % 16 <= (
            other - start) % 16,
{
    axiom_u16_trailing_zeros(after);
    axiom_u16_trailing_zeros(bucket);
    bits::lemma_zero16(after);
    if after != 0 {
        bits::lemma_set_clear16(bucket, start, thread);
    }
    assert forall|other: int|
        0 <= other < 16 && #[trigger] bits::bit16(bucket, other) implies (thread - start) % 16 <= (
    other - start) % 16 by {
        bits::lemma_set_clear16(bucket, start, other);
        let k = other as u16;
        if after != 0 {
            if other >= start {
                assert(bits::bit16(after, other));
                if other < thread {
                    assert((after >> k) & 1u16 == 0u16);
                }
            }
        } else {
            assert(!bits::bit16(after, other));
            if other < thread {
                assert((bucket >> k) & 1u16 == 0u16);
            }
            bits::lemma_set_clear16(bucket, start, thread);
            assert(!bits::bit16(after, thread));
        }
    }
}

/// The run queues of all processors.
pub struct RunQueues {
    queues: [RunQueue; 8],
}

impl RunQueues {
    pub closed spec fn view(&self) -> Seq<RunQueueView> {
        Seq::new(8, |cpu: int| self.queues@[cpu]@)
    }

    /// There are eight queues, and each is in order.
    pub proof fn lemma_wf(&self)
        ensures
            self.view().len() == 8,
            forall|cpu: int| 0 <= cpu < 8 ==> (#[trigger] self.view()[cpu]).wf(),
    {
    }

    pub fn new() -> (queues: Self)
        ensures
            queues.view() == Seq::new(8, |cpu: int| RunQueueView::empty()),
    {
        let queue = RunQueue::new();
        let queues = Self { queues: [queue; 8] };
        assert(queues.view() =~= Seq::new(8, |cpu: int| RunQueueView::empty()));
        queues
    }
}

pub fn reset(queues: &mut RunQueues)
    ensures
        final(queues).view() == Seq::new(8, |cpu: int| RunQueueView::empty()),
{
    let queue = RunQueue::new();
    queues.queues = [queue; 8];
    assert(queues.view() =~= Seq::new(8, |cpu: int| RunQueueView::empty()));
}

pub fn enqueue(queues: &mut RunQueues, cpu: usize, thread: usize, priority: u8) -> (queued: bool)
    ensures
        queued == (cpu < MAX_CPUS && thread < MAX_RUNNABLE_THREADS && priority
            < PRIORITY_LEVELS),
        final(queues).view() == (if queued {
            old(queues).view().update(
                cpu as int,
                old(queues).view()[cpu as int].with(thread as int, priority),
            )
        } else {
            old(queues).view()
        }),
{
    if cpu >= MAX_CPUS {
        return false;
    }
    let mut queue: RunQueue = queues.queues[cpu];
    let queued = queue.enqueue(thread, priority);
    queues.queues[cpu] = queue;
    assert(queues.view() =~= old(queues).view().update(cpu as int, queue@));
    assert(old(queues).view() =~= old(queues).view().update(
        cpu as int,
        old(queues).view()[cpu as int],
    ));
    queued
}

pub fn remove(queues: &mut RunQueues, cpu: usize, thread: usize) -> (removed: bool)
    ensures
        removed == (cpu < MAX_CPUS && thread < MAX_RUNNABLE_THREADS && old(queues).view()[cpu as int].priority[thread as int] is Some),
        final(queues).view() == (if removed {
            old(queues).view().update(
                cpu as int,
                old(queues).view()[cpu as int].without(thread as int),
            )
        } else {
            old(queues).view()
        }),
{
    if cpu >= MAX_CPUS {
        return false;
    }
    let mut queue: RunQueue = queues.queues[cpu];
    let removed = queue.remove(thread);
    queues.queues[cpu] = queue;
    assert(queues.view() =~= old(queues).view().update(cpu as int, queue@));
    assert(old(queues).view() =~= old(queues).view().update(
        cpu as int,
        old(queues).view()[cpu as int],
    ));
    removed
}

pub fn pop_highest(queues: &mut RunQueues, cpu: usize) -> (thread: Option<usize>)
    ensures
        cpu >= MAX_CPUS ==> thread is None,
        match thread {
            Some(next) => next < MAX_RUNNABLE_THREADS && old(queues).view()[cpu as int].is_next(
                next as int,
            ) && final(queues).view() == old(queues).view().update(
                cpu as int,
                old(queues).view()[cpu as int].after_pop(next as int),
            ),
            None => final(queues).view() == old(queues).view() && (cpu < MAX_CPUS ==> forall|t: int|
                0 <= t < 16 ==> #[trigger] old(queues).view()[cpu as int].priority[t] is None),
        },
{
    if cpu >= MAX_CPUS {
        return None;
    }
    let mut queue: RunQueue = queues.queues[cpu];
    let thread = queue.pop_highest();
    queues.queues[cpu] = queue;
    assert(queues.view() =~= old(queues).view().update(cpu as int, queue@));
    assert(old(queues).view() =~= old(queues).view().update(
        cpu as int,
        old(queues).view()[cpu as int],
    ));
    thread
}

pub fn len(queues: &RunQueues, cpu: usize) -> (length: usize)
    ensures
        length == (if cpu < MAX_CPUS {
            queued_count(queues.view()[cpu as int].priority, 16)
        } else {
            0
        }),
{
    if cpu >= MAX_CPUS {
        return 0;
    }
    queues.queues[cpu].len()
}

/// Exercises a queue: higher priorities first, in turns within a priority.
pub fn self_test() -> (passed: bool)
    ensures
        passed,
{
    let mut queue = RunQueue::new();
    let ghost v0 = queue@;
    let queued = queue.enqueue(0, 1) && queue.enqueue(1, 63) && queue.enqueue(2, 63);
    let ghost v1 = queue@;
    proof {
        reveal_with_fuel(queued_count, 17);
        assert(v1.queued_at(1, 63) && v1.queued_at(2, 63) && v1.queued_at(0, 1));
        assert(v1.is_highest(63));
        assert(v1.turn(1, 63) == 1 && v1.turn(2, 63) == 2);
        assert(v1.is_next(1));
    }
    let three = queue.len() == 3;
    let first = queue.pop_highest();
    let ghost v2 = queue@;
    proof {
        if let Some(next) = first {
            law_next_is_unique(v1, 1, next as int);
        }
        assert(v1.priority[1] is Some);
        assert(v2.queued_at(2, 63));
        assert(v2.is_highest(63));
        assert(v2.is_next(2));
    }
    let second = queue.pop_highest();
    let ghost v3 = queue@;
    proof {
        if let Some(next) = second {
            law_next_is_unique(v2, 2, next as int);
        }
        assert(v2.priority[2] is Some);
    }
    let moved = queue.enqueue(0, 40);
    let ghost v4 = queue@;
    let one = queue.len() == 1;
    proof {
        assert(v4.queued_at(0, 40));
        assert(v4.is_highest(40));
        assert(v4.is_next(0));
    }
    let third = queue.pop_highest();
    proof {
        if let Some(next) = third {
            law_next_is_unique(v4, 0, next as int);
        }
        assert(v4.priority[0] is Some);
        assert forall|t: int| 0 <= t < 16 implies #[trigger] queue@.priority[t] is None by {}
    }
    let last = queue.pop_highest();
    queued && three && first == Some(1usize) && second == Some(2usize) && moved && one && third
        == Some(0usize) && last.is_none()
}

/// A thread is queued once: queueing it again moves it.
pub proof fn law_enqueue_moves(queue: RunQueueView, thread: int, first: u8, second: u8)
    requires
        0 <= thread < 16,
        queue.wf(),
    ensures
        queue.with(thread, first).with(thread, second) == queue.with(thread, second),
{
    assert(queue.with(thread, first).with(thread, second) =~= queue.with(thread, second));
}

/// Removing undoes queueing a thread that was not queued.
pub proof fn law_remove_undoes_enqueue(queue: RunQueueView, thread: int, priority: u8)
    requires
        0 <= thread < 16,
        queue.wf(),
        queue.priority[thread] is None,
    ensures
        queue.with(thread, priority).without(thread) == queue,
{
    assert(queue.with(thread, priority).without(thread) =~= queue);
}

/// The thread to run next is determined.
pub proof fn law_next_is_unique(queue: RunQueueView, a: int, b: int)
    requires
        queue.wf(),
        queue.is_next(a),
        queue.is_next(b),
    ensures
        a == b,
{
    let la = choose|level: int| #[trigger]
        queue.is_highest(level) && queue.queued_at(a, level) && (forall|other: int| #[trigger]
            queue.queued_at(other, level) ==> queue.turn(a, level) <= queue.turn(other, level));
    let lb = choose|level: int| #[trigger]
        queue.is_highest(level) && queue.queued_at(b, level) && (forall|other: int| #[trigger]
            queue.queued_at(other, level) ==> queue.turn(b, level) <= queue.turn(other, level));
    assert(queue.queued_at(a, la) && queue.queued_at(b, lb));
    if la < lb {
        assert(!queue.queued_at(b, lb));
    }
    if lb < la {
        assert(!queue.queued_at(a, la));
    }
}

/// No thread that is queued is more urgent than the one to run next.
pub proof fn law_next_is_most_urgent(queue: RunQueueView, thread: int, other: int)
    requires
        queue.wf(),
        queue.is_next(thread),
        0 <= other < 16,
    ensures
        queue.priority[other] matches Some(level) ==> queue.priority[thread] matches Some(highest)
            && level <= highest,
{
    let highest = choose|level: int| #[trigger]
        queue.is_highest(level) && queue.queued_at(thread, level) && (forall|another: int|
            #[trigger] queue.queued_at(another, level) ==> queue.turn(thread, level) <= queue.turn(
                another,
                level,
            ));
    assert(queue.queued_at(thread, highest));
    if let Some(level) = queue.priority[other] {
        assert(queue.queued_at(other, level as int));
    }
}

proof fn lemma_count_update(priority: Seq<Option<u8>>, thread: int, level: Option<u8>, n: nat)
    requires
        0 <= thread < priority.len(),
        n <= priority.len(),
    ensures
        queued_count(priority.update(thread, level), n) + (if thread < n && priority[thread] is Some {
            1int
        } else {
            0
        }) == queued_count(priority, n) + (if thread < n && level is Some {
            1int
        } else {
            0
        }),
    decreases n,
{
    if n > 0 {
        lemma_count_update(priority, thread, level, (n - 1) as nat);
    }
}

/// Queueing a thread that is not queued makes a queue longer by one, removing one that is, or
/// taking the next, makes it shorter by one, and a queue stays in order.
pub proof fn law_length_follows(queue: RunQueueView, thread: int, priority: u8)
    requires
        queue.wf(),
        0 <= thread < 16,
        priority < 64,
    ensures
        queue.with(thread, priority).wf(),
        queue.without(thread).wf(),
        queue.is_next(thread) ==> queue.after_pop(thread).wf() && queued_count(
            queue.after_pop(thread).priority,
            16,
        ) == queued_count(queue.priority, 16) - 1,
        queued_count(queue.with(thread, priority).priority, 16) == queued_count(
            queue.priority,
            16,
        ) + (if queue.priority[thread] is Some {
            0int
        } else {
            1
        }),
        queued_count(queue.without(thread).priority, 16) == queued_count(queue.priority, 16) - (
        if queue.priority[thread] is Some {
            1int
        } else {
            0
        }),
{
    lemma_count_update(queue.priority, thread, Some(priority), 16);
    lemma_count_update(queue.priority, thread, None, 16);
}

/// Two threads of one priority take turns: once the first has run and is queued
/// again, the second comes before it.
pub proof fn law_round_robin(queue: RunQueueView, first: int, second: int, priority: u8)
    requires
        queue.wf(),
        priority < 64,
        first != second,
        queue.is_next(first),
        queue.queued_at(first, priority as int),
        queue.queued_at(second, priority as int),
    ensures
        !queue.after_pop(first).with(first, priority).is_next(first),
{
    let after = queue.after_pop(first).with(first, priority);
    let level = priority as int;
    assert(after.queued_at(second, level));
    assert(after.queued_at(first, level));
    assert(after.turn(first, level) == 15);
    assert(after.turn(second, level) < 15);
    if after.is_next(first) {
        let l = choose|l: int| #[trigger]
            after.is_highest(l) && after.queued_at(first, l) && (forall|other: int| #[trigger]
                after.queued_at(other, l) ==> after.turn(first, l) <= after.turn(other, l));
        assert(after.queued_at(first, l));
        assert(l == level);
        assert(after.turn(first, l) <= after.turn(second, l));
    }
}

} // verus!
