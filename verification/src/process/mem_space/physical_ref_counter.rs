//! The counter of references to physical frames.
//!
//! A frame that several mappings share is copied when one of them writes to
//! it; the counter tells how many mappings hold each frame.

use vstd::prelude::*;
use std::collections::HashMap;
use vstd::std_specs::hash::*;

verus! {

broadcast use vstd::std_specs::hash::group_hash_axioms;

/// The number of references to each physical frame. A frame that the counter
/// has no entry for has no reference.
pub struct PhysRefCounter {
    counts: HashMap<usize, usize>,
    /// The greatest number of references that a frame has had at once.
    peak: usize,
}

impl PhysRefCounter {
    /// The counter's invariant: it holds no entry for a frame without
    /// reference.
    pub closed spec fn wf(&self) -> bool {
        forall|f: usize| #[trigger]
            self.counts@.contains_key(f) ==> 0 < self.counts@[f] <= self.peak
    }

    /// The greatest number of references that a frame has had at once since
    /// the counter was created.
    pub closed spec fn peak(&self) -> nat {
        self.peak as nat
    }

    /// No frame has more references than the greatest number that one has
    /// had.
    pub proof fn lemma_peak(&self, frame: int)
        requires
            self.wf(),
        ensures
            self.count(frame) <= self.peak(),
    {
    }

    /// The number of references to frame number `frame`.
    pub closed spec fn count(&self, frame: int) -> nat {
        if 0 <= frame <= usize::MAX && self.counts@.contains_key(frame as usize) {
            self.counts@[frame as usize] as nat
        } else {
            0
        }
    }

    /// Tells whether every frame can get one more reference.
    pub open spec fn has_room(&self) -> bool {
        forall|f: int| #[trigger] self.count(f) < usize::MAX
    }

    /// Creates a counter in which no frame has a reference.
    pub fn new() -> (c: Self)
        ensures
            c.wf(),
            c.peak() == 0,
            forall|f: int| #[trigger] c.count(f) == 0,
    {
        PhysRefCounter { counts: HashMap::new(), peak: 0 }
    }

    /// Returns the number of references that every frame can still get.
    pub fn room(&self) -> (n: usize)
        requires
            self.wf(),
        ensures
            n == usize::MAX - self.peak(),
            forall|f: int| #[trigger] self.count(f) + n <= usize::MAX,
    {
        proof {
            assert forall|f: int| #[trigger] self.count(f) + (usize::MAX - self.peak) <= usize::MAX by {
                self.lemma_peak(f);
            }
        }
        usize::MAX - self.peak
    }

    /// Tells whether no frame has had as many references as the counter can
    /// count; every frame can then get one more.
    pub fn can_count_more(&self) -> (b: bool)
        requires
            self.wf(),
        ensures
            b == (self.peak() < usize::MAX),
            b ==> self.has_room(),
    {
        proof {
            assert forall|f: int| self.peak < usize::MAX implies #[trigger] self.count(f)
                < usize::MAX by {
                self.lemma_peak(f);
            }
        }
        self.peak < usize::MAX
    }

    /// Returns the number of references to frame number `frame`.
    pub fn get(&self, frame: usize) -> (n: usize)
        requires
            self.wf(),
        ensures
            n == self.count(frame as int),
    {
        match self.counts.get(&frame) {
            Some(n) => *n,
            None => 0,
        }
    }

    /// Adds a reference to frame number `frame`.
    pub fn incr(&mut self, frame: usize)
        requires
            old(self).wf(),
            old(self).count(frame as int) < usize::MAX,
        ensures
            final(self).wf(),
            final(self).count(frame as int) == old(self).count(frame as int) + 1,
            forall|f: int| f != frame ==> #[trigger] final(self).count(f) == old(self).count(f),
            final(self).peak() == if old(self).count(frame as int) < old(self).peak() {
                old(self).peak()
            } else {
                old(self).count(frame as int) + 1
            },
    {
        let n = self.get(frame);
        proof {
            self.lemma_peak(frame as int);
        }
        self.counts.insert(frame, n + 1);
        if n + 1 > self.peak {
            self.peak = n + 1;
        }
    }

    /// Removes a reference to frame number `frame`, and tells whether the
    /// frame is left without reference. A frame that had no reference still
    /// has none.
    pub fn decr(&mut self, frame: usize) -> (reached_zero: bool)
        requires
            old(self).wf(),
        ensures
            final(self).wf(),
            final(self).count(frame as int) == if old(self).count(frame as int) > 0 {
                old(self).count(frame as int) - 1
            } else {
                0
            },
            forall|f: int| f != frame ==> #[trigger] final(self).count(f) == old(self).count(f),
            reached_zero == (final(self).count(frame as int) == 0),
            final(self).peak() == old(self).peak(),
    {
        let n = self.get(frame);
        if n > 1 {
            self.counts.insert(frame, n - 1);
            false
        } else {
            self.counts.remove(&frame);
            true
        }
    }

    /// Tells whether frame number `frame` has more than one reference.
    pub fn is_shared(&self, frame: usize) -> (b: bool)
        requires
            self.wf(),
        ensures
            b == (self.count(frame as int) > 1),
    {
        self.get(frame) > 1
    }
}

} // verus!
