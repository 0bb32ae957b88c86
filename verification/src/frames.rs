//! How a device queue recycles its recording frames.
//!
//! A queue records each submission into a frame: a command buffer, a fence and
//! a staging area. It keeps at most `FRAMES_IN_FLIGHT` of them and hands a
//! frame out again once the submission it last carried has completed. The
//! state kept here is the submission index of each frame, the index of the last
//! submission, and the highest index known to have completed; the fences
//! themselves belong to the backend, which asks this state what to do next and
//! reports what the device answered.
use vstd::prelude::*;

verus! {

/// The most frames a queue records into at once.
pub const FRAMES_IN_FLIGHT: usize = 3;

/// The index of a submission to a queue; a later submission has a greater index.
#[derive(Clone, Copy, Debug, PartialEq, Eq, PartialOrd, Ord, Hash, Structural)]
pub struct SubmissionIndex(pub u64);

/// The bookkeeping of a queue's frames.
pub struct QueueState {
    next: u64,
    completed: u64,
    frames: Vec<u64>,
}

/// What a queue does to find a frame for its next submission.
#[derive(Clone, Copy, PartialEq, Eq, Debug, Structural)]
pub enum Acquire {
    /// A frame whose submission completed is handed out again.
    Reuse(usize),
    /// No frame is free and the queue may record another: create it.
    Grow,
    /// Every frame is busy: wait for the oldest submission, then reuse its frame.
    Await { slot: usize, index: u64 },
}

/// What a wait for a submission does next.
#[derive(Clone, Copy, PartialEq, Eq, Debug, Structural)]
pub enum Completion {
    /// The submission was never made.
    Unsubmitted,
    /// The submission has completed.
    Done,
    /// The submission is pending: wait on the fence of this frame.
    Wait { slot: usize },
}

/// The first frame whose submission has completed, from `from` on.
pub open spec fn first_free_from(frames: Seq<u64>, completed: u64, from: int) -> Option<int>
    decreases frames.len() - from,
{
    if from < 0 || from >= frames.len() {
        None
    } else if frames[from] <= completed {
        Some(from)
    } else {
        first_free_from(frames, completed, from + 1)
    }
}

/// The first frame whose submission has completed.
pub open spec fn first_free(frames: Seq<u64>, completed: u64) -> Option<int> {
    first_free_from(frames, completed, 0)
}

/// `slot` is the first frame that carries the smallest index.
pub open spec fn is_oldest(frames: Seq<u64>, slot: int) -> bool {
    &&& 0 <= slot < frames.len()
    &&& forall|s: int| 0 <= s < frames.len() ==> frames[slot] <= #[trigger] frames[s]
    &&& forall|s: int| 0 <= s < slot ==> frames[slot] < #[trigger] frames[s]
}

/// Some frame carries `index`.
pub open spec fn carries(frames: Seq<u64>, index: u64) -> bool {
    exists|s: int| 0 <= s < frames.len() && #[trigger] frames[s] == index
}

/// `slot` is the first frame that carries `index`.
pub open spec fn is_owner(frames: Seq<u64>, index: u64, slot: int) -> bool {
    &&& 0 <= slot < frames.len()
    &&& frames[slot] == index
    &&& forall|s: int| 0 <= s < slot ==> #[trigger] frames[s] != index
}

proof fn lemma_first_free_from(frames: Seq<u64>, completed: u64, from: int)
    requires
        0 <= from <= frames.len(),
    ensures
        match first_free_from(frames, completed, from) {
            Some(s) => from <= s < frames.len() && frames[s] <= completed && forall|t: int|
                from <= t < s ==> #[trigger] frames[t] > completed,
            None => forall|t: int| from <= t < frames.len() ==> #[trigger] frames[t] > completed,
        },
    decreases frames.len() - from,
{
    if from < frames.len() && frames[from] > completed {
        lemma_first_free_from(frames, completed, from + 1);
    }
}

/// What `first_free` picks: the first frame at or below `completed`, or none.
pub proof fn lemma_first_free(frames: Seq<u64>, completed: u64)
    ensures
        match first_free(frames, completed) {
            Some(s) => 0 <= s < frames.len() && frames[s] <= completed && forall|t: int|
                0 <= t < s ==> #[trigger] frames[t] > completed,
            None => forall|t: int| 0 <= t < frames.len() ==> #[trigger] frames[t] > completed,
        },
{
    lemma_first_free_from(frames, completed, 0);
}

impl QueueState {
    /// The index of the last submission.
    pub closed spec fn last(self) -> u64 {
        self.next
    }

    /// The highest index known to have completed.
    pub closed spec fn done(self) -> u64 {
        self.completed
    }

    /// The submission index each frame carries.
    pub closed spec fn indices(self) -> Seq<u64> {
        self.frames@
    }

    /// The queue holds at most `FRAMES_IN_FLIGHT` frames, no frame carries an
    /// index beyond the last submission, and every submission that has not
    /// completed is carried by a frame.
    pub open spec fn wf(self) -> bool {
        &&& self.done() <= self.last()
        &&& self.indices().len() <= FRAMES_IN_FLIGHT
        &&& forall|s: int| 0 <= s < self.indices().len() ==> #[trigger] self.indices()[s] <= self.last()
        &&& forall|i: u64| self.done() < i <= self.last() ==> #[trigger] carries(self.indices(), i)
    }

    /// A queue with no frame and no submission.
    pub fn new() -> (q: QueueState)
        ensures
            q.wf(),
            q.last() == 0,
            q.done() == 0,
            q.indices() == Seq::<u64>::empty(),
    {
        QueueState { next: 0, completed: 0, frames: Vec::new() }
    }

    /// How many frames the queue holds.
    pub fn frames(&self) -> (n: usize)
        ensures
            n == self.indices().len(),
    {
        self.frames.len()
    }

    /// The index of the last submission.
    pub fn next(&self) -> (n: SubmissionIndex)
        ensures
            n.0 == self.last(),
    {
        SubmissionIndex(self.next)
    }

    /// The highest index known to have completed.
    pub fn completed(&self) -> (n: u64)
        ensures
            n == self.done(),
    {
        self.completed
    }

    /// The submission index the frame in `slot` carries.
    pub fn index(&self, slot: usize) -> (i: u64)
        requires
            slot < self.indices().len(),
        ensures
            i == self.indices()[slot as int],
    {
        self.frames[slot]
    }

    fn first_free(&self) -> (r: Option<usize>)
        ensures
            r == (match first_free(self.indices(), self.done()) {
                Some(s) => Some(s as usize),
                None => None::<usize>,
            }),
    {
        proof {
            lemma_first_free(self.indices(), self.done());
        }
        let mut slot: usize = 0;
        while slot < self.frames.len()
            invariant
                slot <= self.frames.len(),
                forall|t: int| 0 <= t < slot ==> #[trigger] self.frames@[t] > self.completed,
            decreases self.frames.len() - slot,
        {
            if self.frames[slot] <= self.completed {
                proof {
                    lemma_first_free(self.indices(), self.done());
                    let f = first_free(self.indices(), self.done());
                    if f is Some {
                        let s = f->0;
                        if s < slot {
                            assert(self.frames@[s] > self.completed);
                        }
                        if s > slot as int {
                            assert(self.frames@[slot as int] > self.completed);
                        }
                    }
                }
                return Some(slot);
            }
            slot += 1;
        }
        proof {
            let f = first_free(self.indices(), self.done());
            if f is Some {
                assert(self.frames@[f->0] > self.completed);
            }
        }
        None
    }

    fn oldest(&self) -> (slot: usize)
        requires
            self.indices().len() > 0,
        ensures
            is_oldest(self.indices(), slot as int),
    {
        let mut best: usize = 0;
        let mut slot: usize = 1;
        while slot < self.frames.len()
            invariant
                1 <= slot <= self.frames.len(),
                best < slot,
                forall|s: int| 0 <= s < slot ==> self.frames@[best as int] <= #[trigger] self.frames@[s],
                forall|s: int| 0 <= s < best ==> self.frames@[best as int] < #[trigger] self.frames@[s],
            decreases self.frames.len() - slot,
        {
            if self.frames[slot] < self.frames[best] {
                best = slot;
            }
            slot += 1;
        }
        best
    }

    /// Where the next submission is recorded: the first frame whose submission
    /// completed; else a new frame, while the queue holds fewer than
    /// `FRAMES_IN_FLIGHT`; else the frame of the oldest submission, once that
    /// submission completes.
    pub fn acquire(&self) -> (a: Acquire)
        requires
            self.wf(),
        ensures
            match first_free(self.indices(), self.done()) {
                Some(s) => a == Acquire::Reuse(s as usize),
                None => if self.indices().len() < FRAMES_IN_FLIGHT {
                    a == Acquire::Grow
                } else {
                    a matches Acquire::Await { slot, index } && is_oldest(self.indices(), slot as int)
                        && index == self.indices()[slot as int] && self.done() < index <= self.last()
                },
            },
    {
        proof {
            lemma_first_free(self.indices(), self.done());
        }
        match self.first_free() {
            Some(slot) => Acquire::Reuse(slot),
            None => {
                if self.frames.len() < FRAMES_IN_FLIGHT {
                    Acquire::Grow
                } else {
                    let slot = self.oldest();
                    Acquire::Await { slot, index: self.frames[slot] }
                }
            },
        }
    }

    /// Adds a frame that carries no submission yet, and returns its slot.
    pub fn grow(&mut self) -> (slot: usize)
        requires
            old(self).wf(),
            old(self).indices().len() < FRAMES_IN_FLIGHT,
        ensures
            final(self).wf(),
            slot == old(self).indices().len(),
            final(self).indices() == old(self).indices().push(0),
            final(self).last() == old(self).last(),
            final(self).done() == old(self).done(),
    {
        self.frames.push(0);
        let ghost frames = self.frames@;
        assert forall|i: u64| self.completed < i <= self.next implies #[trigger] carries(frames, i) by {
            assert(carries(old(self).frames@, i));
            let s = choose|s: int| 0 <= s < old(self).frames@.len() && #[trigger] old(self).frames@[s] == i;
            assert(frames[s] == i);
        }
        self.frames.len() - 1
    }

    /// Records the next submission into the frame in `slot`, whose last
    /// submission has completed, and returns the new submission's index.
    pub fn begin(&mut self, slot: usize) -> (submitted: SubmissionIndex)
        requires
            old(self).wf(),
            slot < old(self).indices().len(),
            old(self).indices()[slot as int] <= old(self).done(),
            old(self).last() < u64::MAX,
        ensures
            final(self).wf(),
            submitted.0 == old(self).last() + 1,
            final(self).last() == submitted.0,
            final(self).done() == old(self).done(),
            final(self).indices() == old(self).indices().update(slot as int, submitted.0),
    {
        let index = self.next + 1;
        self.next = index;
        self.frames.set(slot, index);
        let ghost frames = self.frames@;
        assert forall|i: u64| self.completed < i <= self.next implies #[trigger] carries(frames, i) by {
            if i < index {
                assert(carries(old(self).frames@, i));
                let s = choose|s: int| 0 <= s < old(self).frames@.len() && #[trigger] old(self).frames@[s] == i;
                assert(s != slot);
                assert(frames[s] == i);
            } else {
                assert(frames[slot as int] == i);
            }
        }
        SubmissionIndex(index)
    }

    /// Whether the fence of the frame in `slot` is still to be asked: its
    /// submission is not known to have completed.
    pub fn pending(&self, slot: usize) -> (p: bool)
        requires
            slot < self.indices().len(),
        ensures
            p == (self.indices()[slot as int] > self.done()),
    {
        self.frames[slot] > self.completed
    }

    /// Takes in what the fence of the frame in `slot` answered: a signaled
    /// fence completes its submission and every earlier one.
    pub fn observe(&mut self, slot: usize, signaled: bool)
        requires
            old(self).wf(),
            slot < old(self).indices().len(),
        ensures
            final(self).wf(),
            final(self).last() == old(self).last(),
            final(self).indices() == old(self).indices(),
            final(self).done() >= old(self).done(),
            final(self).done() == if signaled && old(self).indices()[slot as int] > old(self).done() {
                old(self).indices()[slot as int]
            } else {
                old(self).done()
            },
    {
        if signaled && self.frames[slot] > self.completed {
            self.completed = self.frames[slot];
        }
    }

    /// The next step of a wait for submission `index`, once the pending
    /// fences have been asked: refused beyond the last submission, done at or
    /// below the completed index, else a wait on the frame that carries it.
    pub fn awaiting(&self, submitted: SubmissionIndex) -> (c: Completion)
        requires
            self.wf(),
        ensures
            submitted.0 > self.last() ==> c == Completion::Unsubmitted,
            submitted.0 <= self.last() && submitted.0 <= self.done() ==> c == Completion::Done,
            submitted.0 <= self.last() && submitted.0 > self.done() ==> (c matches Completion::Wait { slot }
                && is_owner(self.indices(), submitted.0, slot as int)),
    {
        let index = submitted.0;
        if index > self.next {
            return Completion::Unsubmitted;
        }
        if index <= self.completed {
            return Completion::Done;
        }
        proof {
            assert(carries(self.indices(), index));
        }
        let ghost owner = choose|s: int| 0 <= s < self.indices().len() && #[trigger] self.indices()[s] == index;
        let mut slot: usize = 0;
        while slot < self.frames.len()
            invariant
                slot <= self.frames.len(),
                index == submitted.0,
                self.completed < index <= self.next,
                0 <= owner < self.frames@.len(),
                self.frames@[owner] == index,
                forall|t: int| 0 <= t < slot ==> #[trigger] self.frames@[t] != index,
            decreases self.frames.len() - slot,
        {
            if self.frames[slot] == index {
                return Completion::Wait { slot };
            }
            slot += 1;
        }
        assert(self.frames@[owner] != index);
        Completion::Done
    }
}

/// A queue never holds more than `FRAMES_IN_FLIGHT` frames.
pub proof fn lemma_frames_bounded(q: QueueState)
    requires
        q.wf(),
    ensures
        q.indices().len() <= FRAMES_IN_FLIGHT,
{
}

} // verus!
