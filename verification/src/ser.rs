//! The writing side: the sink that output goes to.

use vstd::prelude::*;

verus! {

/// Owns the sink that a document is written to.
pub struct Serializer<W> {
    output: W,
}

impl<W> Serializer<W> {
    /// The sink that this serializer owns.
    pub closed spec fn output(self) -> W {
        self.output
    }

    /// Wraps `output` without writing to it.
    pub fn new(output: W) -> (s: Self)
        ensures
            s.output() == output,
    {
        Serializer { output }
    }
}

} // verus!
