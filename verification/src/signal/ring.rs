//! A fixed-capacity FIFO of samples.
//!
//! This is the single-threaded buffer used inside
//! [`crate::signal::runner::StageRunner`] to bridge mismatched block sizes.
//! Cross-thread hand-off between the audio callback and the inference thread
//! uses a lock-free queue instead; see [`crate::rings`].

use vstd::prelude::*;

verus! {

/// The bit pattern of a zero sample.
pub const SILENCE: u32 = 0;

/// `count` zero samples.
pub open spec fn silence(count: nat) -> Seq<u32> {
    Seq::new(count, |i: int| SILENCE)
}

/// A fixed-capacity FIFO of samples.
///
/// Capacity is reserved on construction. Pushing more than
/// [`SampleQueue::vacancy`] samples, or popping more than
/// [`SampleQueue::len`], is reported through the return value.
#[derive(Debug)]
pub struct SampleQueue {
    buffer: Vec<u32>,
    head: usize,
    len: usize,
}

/// The position `offset` slots after `head` in a ring of `capacity` slots.
spec fn slot(head: int, offset: int, capacity: int) -> int {
    if head + offset < capacity {
        head + offset
    } else {
        head + offset - capacity
    }
}

impl View for SampleQueue {
    type V = Seq<u32>;

    /// The queued samples, oldest first.
    closed spec fn view(&self) -> Seq<u32> {
        Seq::new(
            self.len as nat,
            |i: int| self.buffer@[slot(self.head as int, i, self.buffer@.len() as int)],
        )
    }
}

impl SampleQueue {
    /// Whether the indices lie inside the backing buffer.
    pub closed spec fn wf(&self) -> bool {
        &&& self.buffer@.len() >= 1
        &&& self.head < self.buffer@.len()
        &&& self.len <= self.buffer@.len()
    }

    /// How many samples the queue can hold.
    pub closed spec fn spec_capacity(&self) -> nat {
        self.buffer@.len()
    }

    /// A well-formed queue never holds more than its capacity, which is at
    /// least one sample.
    pub proof fn lemma_capacity(&self)
        requires
            self.wf(),
        ensures
            self@.len() <= self.spec_capacity() <= usize::MAX,
            self.spec_capacity() >= 1,
    {
        assert(self.buffer.len() == self.buffer@.len());
    }

    /// Creates an empty queue that can hold `capacity` samples (at least one).
    pub fn new(capacity: usize) -> (queue: Self)
        ensures
            queue.wf(),
            queue@ == Seq::<u32>::empty(),
            queue.spec_capacity() == (if capacity == 0 { 1 } else { capacity as nat }),
    {
        let slots: usize = if capacity == 0 { 1 } else { capacity };
        let queue = SampleQueue { buffer: vec![SILENCE; slots], head: 0, len: 0 };
        assert(queue@ =~= Seq::<u32>::empty());
        queue
    }

    /// Number of samples currently queued.
    pub fn len(&self) -> (len: usize)
        ensures
            len == self@.len(),
    {
        self.len
    }

    /// Whether the queue holds no samples.
    pub fn is_empty(&self) -> (empty: bool)
        ensures
            empty == (self@.len() == 0),
    {
        self.len == 0
    }

    /// Total number of samples the queue can hold.
    pub fn capacity(&self) -> (capacity: usize)
        ensures
            capacity == self.spec_capacity(),
    {
        self.buffer.len()
    }

    /// Number of samples that can still be pushed.
    pub fn vacancy(&self) -> (vacancy: usize)
        requires
            self.wf(),
        ensures
            vacancy == self.spec_capacity() - self@.len(),
    {
        self.buffer.len() - self.len
    }

    /// Discards all queued samples.
    pub fn clear(&mut self)
        requires
            old(self).wf(),
        ensures
            final(self).wf(),
            final(self)@ == Seq::<u32>::empty(),
            final(self).spec_capacity() == old(self).spec_capacity(),
    {
        self.head = 0;
        self.len = 0;
        assert(self@ =~= Seq::<u32>::empty());
    }

    /// Stores one sample behind the newest one.
    fn push_one(&mut self, sample: u32)
        requires
            old(self).wf(),
            old(self)@.len() < old(self).spec_capacity(),
        ensures
            final(self).wf(),
            final(self)@ == old(self)@.push(sample),
            final(self).spec_capacity() == old(self).spec_capacity(),
    {
        let capacity: usize = self.buffer.len();
        let room: usize = capacity - self.head;
        let tail: usize = if self.len < room {
            self.head + self.len
        } else {
            self.len - room
        };
        self.buffer[tail] = sample;
        self.len = self.len + 1;
        assert(self@ =~= old(self)@.push(sample));
    }

    /// Appends `samples`, returning how many were actually stored.
    ///
    /// A short return value means the queue was full; the tail of `samples`
    /// was dropped.
    pub fn push(&mut self, samples: &[u32]) -> (count: usize)
        requires
            old(self).wf(),
        ensures
            final(self).wf(),
            final(self).spec_capacity() == old(self).spec_capacity(),
            count == (if samples@.len() <= old(self).spec_capacity() - old(self)@.len() {
                samples@.len() as int
            } else {
                old(self).spec_capacity() - old(self)@.len()
            }),
            final(self)@ == old(self)@ + samples@.take(count as int),
            samples@.take(count as int) == accepted(
                old(self)@,
                old(self).spec_capacity(),
                samples@,
            ),
    {
        let vacancy: usize = self.vacancy();
        let count: usize = if samples.len() < vacancy { samples.len() } else { vacancy };
        let mut stored: usize = 0;
        while stored < count
            invariant
                self.wf(),
                self.spec_capacity() == old(self).spec_capacity(),
                stored <= count <= samples@.len(),
                count <= old(self).spec_capacity() - old(self)@.len(),
                self@ == old(self)@ + samples@.take(stored as int),
            decreases count - stored,
        {
            self.push_one(samples[stored]);
            assert(samples@.take(stored + 1) =~= samples@.take(stored as int).push(
                samples@[stored as int],
            ));
            stored = stored + 1;
            assert(self@ =~= old(self)@ + samples@.take(stored as int));
        }
        count
    }

    /// Appends `count` zeros, returning how many were actually stored.
    pub fn push_silence(&mut self, count: usize) -> (stored: usize)
        requires
            old(self).wf(),
        ensures
            final(self).wf(),
            final(self).spec_capacity() == old(self).spec_capacity(),
            stored == (if count <= old(self).spec_capacity() - old(self)@.len() {
                count as int
            } else {
                old(self).spec_capacity() - old(self)@.len()
            }),
            final(self)@ == old(self)@ + silence(stored as nat),
    {
        let vacancy: usize = self.vacancy();
        let wanted: usize = if count < vacancy { count } else { vacancy };
        let mut stored: usize = 0;
        assert(self@ =~= old(self)@ + silence(0));
        while stored < wanted
            invariant
                self.wf(),
                self.spec_capacity() == old(self).spec_capacity(),
                stored <= wanted <= old(self).spec_capacity() - old(self)@.len(),
                self@ == old(self)@ + silence(stored as nat),
            decreases wanted - stored,
        {
            self.push_one(SILENCE);
            stored = stored + 1;
            assert(self@ =~= old(self)@ + silence(stored as nat));
        }
        stored
    }

    /// Removes the oldest `out.len()` samples into `out`.
    ///
    /// Returns how many samples were written. A short return value means the
    /// queue held fewer samples than requested; the remainder of `out` is
    /// untouched.
    pub fn pop(&mut self, out: &mut [u32]) -> (count: usize)
        requires
            old(self).wf(),
        ensures
            final(self).wf(),
            final(self).spec_capacity() == old(self).spec_capacity(),
            count == (if old(out)@.len() <= old(self)@.len() {
                old(out)@.len()
            } else {
                old(self)@.len()
            }),
            final(self)@ == old(self)@.skip(count as int),
            final(out)@ == old(self)@.take(count as int) + old(out)@.skip(count as int),
            old(self)@.take(count as int) == delivered(old(self)@, old(out)@.len()),
    {
        let wanted: usize = out.len();
        let count: usize = if wanted < self.len { wanted } else { self.len };
        let mut taken: usize = 0;
        let mut from: usize = self.head;
        let capacity: usize = self.buffer.len();
        let ghost start = self.head as int;
        while taken < count
            invariant
                self == old(self),
                self.wf(),
                capacity == self.buffer@.len(),
                start == self.head,
                taken <= count <= self@.len(),
                count <= out@.len(),
                out@.len() == old(out)@.len(),
                taken < self@.len() ==> from == slot(start, taken as int, capacity as int),
                out@ == self@.take(taken as int) + old(out)@.skip(taken as int),
            decreases count - taken,
        {
            out[taken] = self.buffer[from];
            taken = taken + 1;
            from = if from + 1 == capacity { 0 } else { from + 1 };
            assert(out@ =~= self@.take(taken as int) + old(out)@.skip(taken as int));
        }
        self.discard(count);
        count
    }

    /// Discards the oldest `count` samples, returning how many were removed.
    pub fn discard(&mut self, count: usize) -> (removed: usize)
        requires
            old(self).wf(),
        ensures
            final(self).wf(),
            final(self).spec_capacity() == old(self).spec_capacity(),
            removed == (if count < old(self)@.len() { count as nat } else { old(self)@.len() }),
            final(self)@ == old(self)@.skip(removed as int),
    {
        let removed: usize = if count < self.len { count } else { self.len };
        let room: usize = self.buffer.len() - self.head;
        self.head = if removed < room { self.head + removed } else { removed - room };
        self.len = self.len - removed;
        assert(self@ =~= old(self)@.skip(removed as int));
        removed
    }
}

/// The part of `samples` that a queue has room for.
pub open spec fn accepted(contents: Seq<u32>, capacity: nat, samples: Seq<u32>) -> Seq<u32> {
    if contents.len() + samples.len() <= capacity {
        samples
    } else {
        samples.take(capacity - contents.len())
    }
}

/// The samples that a read of at most `wanted` gets.
pub open spec fn delivered(contents: Seq<u32>, wanted: nat) -> Seq<u32> {
    if wanted <= contents.len() {
        contents.take(wanted as int)
    } else {
        contents
    }
}

/// One use of a queue.
pub enum QueueUse {
    /// Samples are offered.
    Push(Seq<u32>),
    /// At most so many samples are read.
    Pop(nat),
}

/// What a queue holds, with everything that ever entered and left it.
pub struct QueueHistory {
    /// The contents.
    pub contents: Seq<u32>,
    /// Every sample that was accepted.
    pub entered: Seq<u32>,
    /// Every sample that was delivered.
    pub left: Seq<u32>,
}

/// A queue's history after one use.
pub open spec fn used(history: QueueHistory, capacity: nat, one: QueueUse) -> QueueHistory {
    match one {
        QueueUse::Push(samples) => {
            let taken = accepted(history.contents, capacity, samples);
            QueueHistory {
                contents: history.contents + taken,
                entered: history.entered + taken,
                ..history
            }
        },
        QueueUse::Pop(wanted) => {
            let given = delivered(history.contents, wanted);
            QueueHistory {
                contents: history.contents.skip(given.len() as int),
                left: history.left + given,
                ..history
            }
        },
    }
}

/// A queue's history after any number of uses, starting empty.
pub open spec fn used_all(capacity: nat, uses: Seq<QueueUse>) -> QueueHistory
    decreases uses.len(),
{
    if uses.len() == 0 {
        QueueHistory { contents: Seq::empty(), entered: Seq::empty(), left: Seq::empty() }
    } else {
        used(used_all(capacity, uses.drop_last()), capacity, uses.last())
    }
}

/// A queue gives back what it was given: however pushes and pops alternate, the
/// samples that have left it, followed by those it holds, are those that have
/// entered it, in their order. It never holds more than its capacity.
pub proof fn law_first_in_first_out(capacity: nat, uses: Seq<QueueUse>)
    ensures
        ({
            let history = used_all(capacity, uses);
            &&& history.left + history.contents == history.entered
            &&& history.contents.len() <= capacity
        }),
    decreases uses.len(),
{
    if uses.len() == 0 {
        let history = used_all(capacity, uses);
        assert(history.left + history.contents =~= history.entered);
    } else {
        law_first_in_first_out(capacity, uses.drop_last());
        let before = used_all(capacity, uses.drop_last());
        let after = used(before, capacity, uses.last());
        assert(after.left + after.contents =~= after.entered);
    }
}

/// A write that fits is read back whole: what was in the queue comes first, and
/// then the samples just written.
pub proof fn law_a_write_is_read_back(contents: Seq<u32>, capacity: nat, samples: Seq<u32>)
    requires
        contents.len() + samples.len() <= capacity,
    ensures
        accepted(contents, capacity, samples) == samples,
        delivered(contents + samples, contents.len() + samples.len()) == contents + samples,
        delivered((contents + samples).skip(contents.len() as int), samples.len()) == samples,
{
    assert((contents + samples).skip(contents.len() as int) =~= samples);
    assert(samples.take(samples.len() as int) =~= samples);
    assert((contents + samples).take((contents + samples).len() as int) =~= contents + samples);
}

} // verus!
