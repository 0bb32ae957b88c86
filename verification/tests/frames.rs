use neura::frames::{Acquire, Completion, QueueState, SubmissionIndex, FRAMES_IN_FLIGHT};

/// A device that runs submissions in order and finishes them only when a
/// fence is waited on, or when told to catch up.
struct Device {
    finished: u64,
    waits: usize,
}

impl Device {
    fn signaled(&self, index: u64) -> bool {
        index <= self.finished
    }
}

fn retire(queue: &mut QueueState, device: &Device) {
    for slot in 0..queue.frames() {
        if queue.pending(slot) {
            let signaled = device.signaled(queue.index(slot));
            queue.observe(slot, signaled);
        }
    }
}

fn await_completion(queue: &mut QueueState, device: &mut Device, index: u64) -> Result<(), String> {
    retire(queue, device);
    match queue.awaiting(SubmissionIndex(index)) {
        Completion::Unsubmitted => Err("waiting on an unsubmitted command".to_owned()),
        Completion::Done => Ok(()),
        Completion::Wait { slot } => {
            let carried = queue.index(slot);
            assert_eq!(carried, index);
            device.waits += 1;
            device.finished = device.finished.max(carried);
            retire(queue, device);
            if queue.completed() < index {
                Err("the command did not complete".to_owned())
            } else {
                Ok(())
            }
        }
    }
}

fn submit(queue: &mut QueueState, device: &mut Device) -> SubmissionIndex {
    retire(queue, device);
    let slot = match queue.acquire() {
        Acquire::Reuse(slot) => slot,
        Acquire::Grow => queue.grow(),
        Acquire::Await { slot, index } => {
            await_completion(queue, device, index).unwrap();
            slot
        }
    };
    queue.begin(slot)
}

#[test]
fn a_queue_recycles_the_frames_of_its_submissions() {
    let mut queue = QueueState::new();
    let mut device = Device { finished: 0, waits: 0 };
    for round in 0..(FRAMES_IN_FLIGHT * 3) {
        let index = submit(&mut queue, &mut device);
        assert_eq!(index, SubmissionIndex(round as u64 + 1));
        assert!(
            queue.frames() <= FRAMES_IN_FLIGHT,
            "a queue records no more than {FRAMES_IN_FLIGHT} frames at once",
        );
    }
    let last = queue.next().0;
    assert!(SubmissionIndex(last) > SubmissionIndex(last - 1));
    await_completion(&mut queue, &mut device, last).unwrap();
    assert_eq!(queue.completed(), last);
    assert!(
        queue.frames() <= FRAMES_IN_FLIGHT,
        "a queue of {} submissions records no frame of its own for each of them",
        FRAMES_IN_FLIGHT * 3,
    );
    assert_eq!(queue.frames(), FRAMES_IN_FLIGHT);
    assert!(device.waits > 0);
}

#[test]
fn a_queue_reuses_a_completed_frame_before_it_grows() {
    let mut queue = QueueState::new();
    assert_eq!(queue.acquire(), Acquire::Grow);
    let slot = queue.grow();
    assert_eq!(slot, 0);
    assert_eq!(queue.index(0), 0);
    assert_eq!(queue.acquire(), Acquire::Reuse(0));
    assert_eq!(queue.begin(0), SubmissionIndex(1));
    assert_eq!(queue.acquire(), Acquire::Grow);
    queue.observe(0, true);
    assert_eq!(queue.completed(), 1);
    assert_eq!(queue.acquire(), Acquire::Reuse(0));
}

#[test]
fn a_full_queue_waits_for_its_oldest_submission() {
    let mut queue = QueueState::new();
    for expected in 1..=(FRAMES_IN_FLIGHT as u64) {
        let slot = queue.grow();
        assert_eq!(queue.begin(slot), SubmissionIndex(expected));
    }
    assert_eq!(queue.acquire(), Acquire::Await { slot: 0, index: 1 });
    queue.observe(1, true);
    assert_eq!(queue.completed(), 2);
    assert_eq!(queue.acquire(), Acquire::Reuse(0));
    assert_eq!(queue.begin(0), SubmissionIndex(FRAMES_IN_FLIGHT as u64 + 1));
    assert_eq!(queue.acquire(), Acquire::Reuse(1));
}

#[test]
fn a_wait_is_refused_done_or_placed_on_the_carrying_frame() {
    let mut queue = QueueState::new();
    let first = queue.grow();
    let second = queue.grow();
    queue.begin(first);
    queue.begin(second);
    assert_eq!(queue.awaiting(SubmissionIndex(3)), Completion::Unsubmitted);
    assert_eq!(queue.awaiting(SubmissionIndex(0)), Completion::Done);
    assert_eq!(queue.awaiting(SubmissionIndex(2)), Completion::Wait { slot: 1 });
    assert!(queue.pending(0));
    queue.observe(0, false);
    assert_eq!(queue.completed(), 0);
    queue.observe(1, true);
    assert_eq!(queue.completed(), 2);
    assert!(!queue.pending(0));
    queue.observe(0, true);
    assert_eq!(queue.completed(), 2);
    assert_eq!(queue.awaiting(SubmissionIndex(1)), Completion::Done);
}
