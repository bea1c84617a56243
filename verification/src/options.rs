//! Runtime configuration: instruction logging, PRNG seed, screen dimensions,
//! and the size of the undo ring.

use vstd::prelude::*;

verus! {

pub struct Options {
    pub log_instructions: bool,
    pub rand_seed: [u32; 4],
    pub dimensions: (u16, u16),
    pub undo_limit: usize,
}

impl Options {
    pub fn default() -> (r: Options)
        ensures
            !r.log_instructions,
            r.rand_seed[0] == 90u32,
            r.rand_seed[1] == 111u32,
            r.rand_seed[2] == 114u32,
            r.rand_seed[3] == 107u32,
            r.dimensions == (80u16, 255u16),
            r.undo_limit == 16usize,
    {
        Options {
            log_instructions: false,
            rand_seed: [90, 111, 114, 107],
            dimensions: (80, 255),  // 255 reads as "infinite scrolling"
            undo_limit: 16,
        }
    }
}

} // verus!
