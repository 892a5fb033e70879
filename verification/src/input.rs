//! The input-capture queue and the per-frame drain that rebuilds the
//! "active keys" snapshot.
//!
//! A dedicated reader task owned by the embedding application blocks on
//! raw byte input and forwards each byte here through `Input::send`; once
//! per frame, before game logic runs, `drain` empties the queue into the
//! snapshot. The render loop itself never blocks waiting for input: a
//! frame proceeds with whatever bytes had arrived by drain time.

use vstd::prelude::*;

verus! {

/// The receiving end of the capture queue: the bytes (as characters) that
/// have arrived since the previous drain, in arrival order.
pub struct Input {
    pub pending: Vec<char>,
}

/// The per-frame snapshot: every byte received since the previous frame,
/// duplicates preserved, in arrival order. Stale after the next drain.
pub struct TerminalInput {
    pub active_keys: Vec<char>,
}

impl Input {
    /// An empty queue.
    pub fn new() -> (q: Input)
        ensures
            q.pending@.len() == 0,
    {
        Input { pending: Vec::new() }
    }

    /// Appends one received byte to the queue (the reader side).
    pub fn send(&mut self, key: char)
        ensures
            final(self).pending@ == old(self).pending@.push(key),
    {
        self.pending.push(key);
    }

    /// Drain completeness: clears the previous snapshot, then moves every
    /// queued byte into it. The snapshot afterwards holds exactly the bytes
    /// that were pending, in arrival order, and the queue is empty, so a
    /// second drain with no new bytes yields an empty snapshot.
    pub fn drain(&mut self, snapshot: &mut TerminalInput)
        ensures
            final(snapshot).active_keys@ == old(self).pending@,
            final(self).pending@.len() == 0,
    {
        snapshot.active_keys.clear();
        let ghost queued = self.pending@;
        let n = self.pending.len();
        let mut i: usize = 0;
        while i < n
            invariant
                n == queued.len(),
                i <= n,
                self.pending@ == queued,
                snapshot.active_keys@ == queued.take(i as int),
            decreases n - i,
        {
            let key = self.pending[i];
            snapshot.active_keys.push(key);
            proof {
                assert(queued.take(i as int).push(queued[i as int])
                    =~= queued.take(i as int + 1));
            }
            i = i + 1;
        }
        self.pending.clear();
        proof {
            assert(queued.take(n as int) =~= queued);
        }
    }
}

impl TerminalInput {
    /// An empty snapshot.
    pub fn new() -> (t: TerminalInput)
        ensures
            t.active_keys@.len() == 0,
    {
        TerminalInput { active_keys: Vec::new() }
    }

    /// Whether `key` was among the bytes received before the last drain.
    pub fn is_active(&self, key: char) -> (r: bool)
        ensures
            r == self.active_keys@.contains(key),
    {
        let n = self.active_keys.len();
        let mut i: usize = 0;
        while i < n
            invariant
                n == self.active_keys@.len(),
                i <= n,
                forall|k: int| 0 <= k < i ==> self.active_keys@[k] != key,
            decreases n - i,
        {
            if self.active_keys[i] == key {
                assert(self.active_keys@.contains(key));
                return true;
            }
            i = i + 1;
        }
        assert(!self.active_keys@.contains(key));
        false
    }
}

} // verus!
