use vstd::prelude::*;

verus! {

/// A snapshot of a queue's depth, or of the size of one write.
#[derive(Clone, Copy, Debug, PartialEq, Eq, Structural)]
pub struct Stats {
    /// Number of buffers.
    pub blocks: usize,
    /// Number of bytes.
    pub bytes: usize,
}

impl Stats {
    pub fn new(blocks: usize, bytes: usize) -> (r: Stats)
        ensures
            r.blocks == blocks,
            r.bytes == bytes,
    {
        Stats { blocks, bytes }
    }
}

impl Default for Stats {
    fn default() -> (r: Stats)
        ensures
            r.blocks == 0,
            r.bytes == 0,
    {
        Stats { blocks: 0, bytes: 0 }
    }
}

} // verus!
