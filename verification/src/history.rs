//! Bounded rolling history of one aggregate metric.
//!
//! A `HistoryBuffer` keeps the last `HISTORY_CAPACITY` values pushed into it,
//! oldest first. Pushing never fails: once the buffer is full, the oldest
//! value is evicted.

use vstd::prelude::*;

verus! {

/// Number of samples a `HistoryBuffer` retains.
pub const HISTORY_CAPACITY: usize = 100;

/// What one push does to the buffer contents: append the value, then drop
/// the oldest element if the capacity would be exceeded.
pub open spec fn spec_push(s: Seq<u64>, value: u64) -> Seq<u64> {
    let grown = s.push(value);
    if grown.len() <= HISTORY_CAPACITY { grown } else { grown.skip(1) }
}

/// Contents of a buffer that started empty after a whole sequence of pushes,
/// in push order.
pub open spec fn buffer_after(pushes: Seq<u64>) -> Seq<u64>
    decreases pushes.len(),
{
    if pushes.len() == 0 {
        Seq::empty()
    } else {
        spec_push(buffer_after(pushes.drop_last()), pushes.last())
    }
}

/// Fixed-capacity rolling sequence of metric samples, oldest first.
pub struct HistoryBuffer {
    values: Vec<u64>,
}

impl View for HistoryBuffer {
    type V = Seq<u64>;

    closed spec fn view(&self) -> Seq<u64> {
        self.values@
    }
}

impl HistoryBuffer {
    /// The buffer never holds more than `HISTORY_CAPACITY` values.
    pub open spec fn wf(&self) -> bool {
        self@.len() <= HISTORY_CAPACITY
    }

    /// An empty buffer.
    pub fn new() -> (r: HistoryBuffer)
        ensures
            r.wf(),
            r@ == Seq::<u64>::empty(),
    {
        HistoryBuffer { values: Vec::new() }
    }

    /// Appends `value`; evicts the oldest sample when the buffer is full.
    /// Always succeeds.
    pub fn push(&mut self, value: u64)
        requires
            old(self).wf(),
        ensures
            final(self).wf(),
            final(self)@ == spec_push(old(self)@, value),
    {
        self.values.push(value);
        if self.values.len() > HISTORY_CAPACITY {
            self.values.remove(0);
            proof {
                assert(self@ =~= spec_push(old(self)@, value));
            }
        }
    }

    /// Current contents, oldest first; reading does not mutate the buffer.
    pub fn values(&self) -> (r: &Vec<u64>)
        ensures
            r@ == self@,
    {
        &self.values
    }

    /// Number of samples currently held.
    pub fn len(&self) -> (r: usize)
        ensures
            r == self@.len(),
    {
        self.values.len()
    }
}

/// Bounded-history law: a buffer that started empty holds, after any
/// sequence of pushes, exactly the last `HISTORY_CAPACITY` pushed values
/// (all of them while there are fewer), in push order.
pub proof fn lemma_bounded_history(pushes: Seq<u64>)
    ensures
        pushes.len() <= HISTORY_CAPACITY ==> buffer_after(pushes) == pushes,
        pushes.len() > HISTORY_CAPACITY ==> buffer_after(pushes) =~= pushes.skip(
            pushes.len() - HISTORY_CAPACITY,
        ),
        buffer_after(pushes).len() == if pushes.len() <= HISTORY_CAPACITY {
            pushes.len() as int
        } else {
            HISTORY_CAPACITY as int
        },
    decreases pushes.len(),
{
    if pushes.len() == 0 {
        assert(buffer_after(pushes) =~= pushes);
    } else {
        lemma_bounded_history(pushes.drop_last());
        if pushes.len() <= HISTORY_CAPACITY {
            assert(buffer_after(pushes) =~= pushes);
        } else {
            assert(buffer_after(pushes) =~= pushes.skip(pushes.len() - HISTORY_CAPACITY));
        }
    }
}

} // verus!
