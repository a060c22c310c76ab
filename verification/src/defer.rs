//! Deferred-destruction buffer.
//!
//! Values produced inside a timed window are moved here instead of being
//! released on the spot, so that a routine's cleanup cost never counts
//! toward its measured time. The buffer is drained once per sample, outside
//! the timed window: draining hands every buffered value back to the caller
//! in production order and leaves the buffer empty, so growth stays bounded
//! by the iterations of one sample.

use vstd::prelude::*;

verus! {

/// Holds values produced by a benchmarked routine until after the sample's
/// timed window has closed.
pub struct DeferBuffer<T> {
    entries: Vec<T>,
}

impl<T> DeferBuffer<T> {
    /// The values currently buffered, in the order they were deferred.
    pub closed spec fn contents(&self) -> Seq<T> {
        self.entries@
    }

    /// An empty buffer.
    pub fn new() -> (r: Self)
        ensures
            r.contents().len() == 0,
    {
        DeferBuffer { entries: Vec::new() }
    }

    /// How many values are currently buffered.
    pub fn len(&self) -> (r: usize)
        ensures
            r == self.contents().len(),
    {
        self.entries.len()
    }

    /// Moves one produced value into the buffer without releasing it; the
    /// value is kept, in order, until the next drain.
    pub fn defer(&mut self, value: T)
        ensures
            final(self).contents() == old(self).contents().push(value),
    {
        self.entries.push(value);
    }

    /// Empties the buffer at a sample boundary: every buffered value is
    /// handed back in production order, to be released outside the timed
    /// window, and the buffer's length is zero afterwards.
    pub fn drain(&mut self) -> (out: Vec<T>)
        ensures
            final(self).contents().len() == 0,
            out@ == old(self).contents(),
    {
        let out = self.entries.split_off(0);
        proof {
            assert(out@ =~= old(self).contents());
        }
        out
    }
}

} // verus!
