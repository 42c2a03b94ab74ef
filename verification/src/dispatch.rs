//! The dispatch engine's verified core: one worker's walk over its
//! chunk, and the shared progress counter.
//!
//! A worker sends its chunk's commands strictly in order. The sending
//! itself is outside work (an HTTP request under a timeout); the loop
//! that drives it hands every outcome back to `record_attempt`, which
//! advances the worker and the progress counter in exactly the same
//! way whether the request succeeded or failed. A failure is consumed
//! on the spot and never stops the chunk.

use vstd::prelude::*;

verus! {

/// The shared progress counter: how many request attempts have
/// completed (success or failure) out of the total command count.
#[derive(Copy, Clone, Debug, PartialEq, Eq, Structural)]
pub struct Progress {
    pub count: usize,
    pub total: usize,
}

impl Progress {
    /// The counter never exceeds the total it was created with.
    pub open spec fn wf(self) -> bool {
        self.count <= self.total
    }

    /// A fresh counter for a run of `total` commands.
    pub fn new(total: usize) -> (r: Self)
        ensures
            r.count == 0,
            r.total == total,
            r.wf(),
    {
        Progress { count: 0, total }
    }

    /// The current count.
    pub fn get(&self) -> (r: usize)
        ensures
            r == self.count,
    {
        self.count
    }
}

/// One dispatch worker: its chunk and the position of the next command
/// to send. Commands before `next` have been attempted, in order.
pub struct Worker {
    pub commands: Vec<String>,
    pub next: usize,
}

/// The state a worker and the progress counter move to after one
/// request attempt: the worker advances to the next command and the
/// counter grows by one. The outcome of the attempt plays no part in
/// the step.
pub open spec fn attempt_step(w: Worker, p: Progress, success: bool) -> (Worker, Progress) {
    (
        Worker { commands: w.commands, next: (w.next + 1) as usize },
        Progress { count: (p.count + 1) as usize, total: p.total },
    )
}

/// Law: a failed request attempt advances the worker and increments
/// the progress counter exactly as a successful one does, so a single
/// failure inside a chunk never prevents the commands after it from
/// being sent, and still counts exactly once.
pub proof fn lemma_failure_isolation(w: Worker, p: Progress)
    ensures
        attempt_step(w, p, false) == attempt_step(w, p, true),
{
}

impl Worker {
    /// Every attempted command lies within the chunk.
    pub open spec fn wf(self) -> bool {
        self.next <= self.commands@.len()
    }

    /// A worker at the start of its chunk.
    pub fn new(chunk: Vec<String>) -> (r: Self)
        ensures
            r.commands == chunk,
            r.next == 0,
            r.wf(),
    {
        Worker { commands: chunk, next: 0 }
    }

    /// Whether the chunk is exhausted.
    pub fn done(&self) -> (r: bool)
        ensures
            r == (self.next == self.commands@.len()),
    {
        self.next == self.commands.len()
    }

    /// The command the worker must send next, if any remains.
    pub fn next_command(&self) -> (r: Option<String>)
        requires
            self.wf(),
        ensures
            self.next < self.commands@.len() ==> (r is Some && r->0@
                == self.commands@[self.next as int]@),
            self.next == self.commands@.len() ==> r is None,
    {
        if self.next < self.commands.len() {
            Some(self.commands[self.next].clone())
        } else {
            None
        }
    }

    /// Records one request attempt: whatever its outcome, the worker
    /// moves past the command and the shared counter counts it once.
    pub fn record_attempt(&mut self, success: bool, progress: &mut Progress)
        requires
            old(self).wf(),
            old(self).next < old(self).commands@.len(),
            old(progress).wf(),
            old(progress).count < old(progress).total,
        ensures
            *final(self) == attempt_step(*old(self), *old(progress), success).0,
            *final(progress) == attempt_step(*old(self), *old(progress), success).1,
            final(self).wf(),
            final(progress).wf(),
            final(self).commands == old(self).commands,
            final(self).next == old(self).next + 1,
            final(progress).count == old(progress).count + 1,
            final(progress).total == old(progress).total,
    {
        let _ = success;
        let n: usize = self.commands.len();
        assert(self.next < n);
        self.next = self.next + 1;
        progress.count = progress.count + 1;
    }
}

} // verus!
