//! Page identifier type.

use vstd::prelude::*;
use vstd::string::StringExecFns;

use crate::text::{decimal_str, decimal_string};

verus! {

/// Identifies a page on disk.
///
/// A `u32` allows for 4 billion pages; the all-ones value is the
/// "invalid" sentinel meaning "no page".
#[derive(Debug, Clone, Copy, PartialEq, Eq, Hash, PartialOrd, Ord, Structural)]
pub struct PageId(pub u32);

impl PageId {
    /// Whether this id is not the sentinel, as a mathematical predicate.
    pub open spec fn spec_valid(self) -> bool {
        self.0 != 0xFFFF_FFFFu32
    }

    /// Create a new page id.
    pub fn new(id: u32) -> (r: Self)
        ensures
            r == PageId(id),
    {
        PageId(id)
    }

    /// The invalid sentinel id, used to represent "no page".
    pub fn invalid() -> (r: Self)
        ensures
            r == PageId(u32::MAX),
            !r.spec_valid(),
    {
        PageId(u32::MAX)
    }

    /// Check that this id is not the sentinel value.
    pub fn is_valid(&self) -> (r: bool)
        ensures
            r == self.spec_valid(),
    {
        self.0 != u32::MAX
    }

    /// A human-readable rendering: `Page(<id>)`, or `Page(INVALID)` for
    /// the sentinel.
    pub fn display_string(&self) -> (r: String)
        ensures
            self.spec_valid() ==> r@ == "Page("@ + decimal_str(self.0 as nat) + ")"@,
            !self.spec_valid() ==> r@ == "Page(INVALID)"@,
    {
        if self.0 == u32::MAX {
            let s = String::from_str("Page(INVALID)");
            s
        } else {
            let mut s = String::from_str("Page(");
            let d = decimal_string(self.0 as u64);
            s.append(d.as_str());
            s.append(")");
            s
        }
    }
}

} // verus!
