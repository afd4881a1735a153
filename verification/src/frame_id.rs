//! Frame identifier type.

use vstd::prelude::*;
use vstd::string::StringExecFns;

use crate::text::{decimal_str, decimal_string};

verus! {

/// Identifies a frame (a slot) in the buffer pool.
///
/// A `usize` is used because frames live in a `Vec` and the id doubles
/// as the index.
#[derive(Debug, Clone, Copy, PartialEq, Eq, Hash, Structural)]
pub struct FrameId(pub usize);

impl FrameId {
    /// Create a new frame id.
    pub fn new(id: usize) -> (r: Self)
        ensures
            r == FrameId(id),
    {
        FrameId(id)
    }

    /// A human-readable rendering: `Frame(<id>)`.
    pub fn display_string(&self) -> (r: String)
        ensures
            r@ == "Frame("@ + decimal_str(self.0 as nat) + ")"@,
    {
        let mut s = String::from_str("Frame(");
        let d = decimal_string(self.0 as u64);
        s.append(d.as_str());
        s.append(")");
        s
    }
}

} // verus!
