//! How long the last problems took.

use vstd::prelude::*;

verus! {

/// How many problems the statistics remember.
pub const HISTORY: usize = 25;

/// The times of the last `HISTORY` problems, in nanoseconds, kept in a ring.
#[derive(Debug)]
pub struct Statistics {
    /// When the problem at hand was started; 0 between problems.
    pub start: u64,
    /// Where the next time goes.
    pub cursor: usize,
    pub history: Vec<u64>,
    pub max_size: usize,
    /// How many times are held.
    pub size: usize,
}

/// The sum of `times`.
pub open spec fn total(times: Seq<u64>) -> nat
    decreases times.len(),
{
    if times.len() == 0 {
        0
    } else {
        total(times.drop_last()) + times.last() as nat
    }
}

impl Statistics {
    /// Whether the ring has its `HISTORY` places, and the cursor and the
    /// count are within it.
    pub open spec fn wf(self) -> bool {
        &&& self.history@.len() == HISTORY
        &&& self.cursor < HISTORY
        &&& self.size <= HISTORY
        &&& self.max_size == HISTORY
    }

    /// The average time of a problem in whole milliseconds, once a time is held.
    pub open spec fn average_ms(self) -> Option<nat> {
        if self.size == 0 {
            None
        } else {
            Some(total(self.history@) / (self.size as nat) / 1000000)
        }
    }

    /// Statistics that hold no time.
    pub fn new() -> (s: Statistics)
        ensures
            s.wf(),
            s.start == 0,
            s.cursor == 0,
            s.size == 0,
            forall|i: int| 0 <= i < HISTORY ==> s.history@[i] == 0,
    {
        let mut history: Vec<u64> = Vec::new();
        let mut i: usize = 0;
        while i < HISTORY
            invariant
                0 <= i <= HISTORY,
                history@.len() == i,
                forall|j: int| 0 <= j < i ==> history@[j] == 0,
            decreases HISTORY - i,
        {
            history.push(0);
            i = i + 1;
        }
        Statistics { start: 0, cursor: 0, history, max_size: HISTORY, size: 0 }
    }

    /// Notes that a problem is started at the time `now`.
    pub fn start(&mut self, now: u64)
        requires
            old(self).wf(),
            old(self).start == 0,
        ensures
            *final(self) == (Statistics { start: now, ..*old(self) }),
    {
        self.start = now;
    }

    /// Notes that the problem at hand has ended at the time `now`: its
    /// time goes in the place of the oldest.
    pub fn end(&mut self, now: u64)
        requires
            old(self).wf(),
            old(self).start <= now,
        ensures
            final(self).wf(),
            final(self).start == 0,
            final(self).history@ == old(self).history@.update(
                old(self).cursor as int,
                (now - old(self).start) as u64,
            ),
            final(self).cursor == (old(self).cursor + 1) % (HISTORY as int),
            final(self).size == if old(self).size < HISTORY {
                old(self).size + 1
            } else {
                HISTORY as int
            },
    {
        let ns = now - self.start;
        self.start = 0;
        self.history.set(self.cursor, ns);
        self.cursor = (self.cursor + 1) % HISTORY;
        if self.size < HISTORY {
            self.size = self.size + 1;
        }
    }

    /// The average time of a problem in whole milliseconds. There is none
    /// before the first problem has ended.
    pub fn report(&self) -> (avg: Option<u64>)
        requires
            self.wf(),
        ensures
            match avg {
                Some(ms) => self.average_ms() == Some(ms as nat),
                None => self.average_ms() is None,
            },
    {
        if self.size == 0 {
            return None;
        }
        let mut sum: u128 = 0;
        let mut i: usize = 0;
        while i < HISTORY
            invariant
                self.wf(),
                0 <= i <= HISTORY,
                sum == total(self.history@.take(i as int)),
                sum <= i * u64::MAX,
            decreases HISTORY - i,
        {
            proof {
                assert(self.history@.take(i + 1).drop_last() =~= self.history@.take(i as int));
            }
            sum = sum + self.history[i] as u128;
            i = i + 1;
        }
        assert(self.history@.take(i as int) =~= self.history@);
        let avg = sum / (self.size as u128) / 1000000;
        Some(avg as u64)
    }
}

} // verus!
