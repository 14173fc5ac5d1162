//! Handles of the GPU programs that draw the batches.
use vstd::prelude::*;

verus! {

/// The id of a linked shader program.
#[derive(Debug)]
pub struct ShaderProgram(pub u32);

impl ShaderProgram {
    /// The program id.
    pub fn id(&self) -> (r: u32)
        ensures
            r == self.0,
    {
        self.0
    }
}

} // verus!
