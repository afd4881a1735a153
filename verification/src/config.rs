//! Configuration constants.

use vstd::prelude::*;

verus! {

/// Size of a page in bytes.
pub const PAGE_SIZE: usize = 4096;

/// Maximum number of pages addressable with a 32-bit page id.
pub const MAX_PAGES: u64 = 4294967296;

/// Maximum theoretical database size in bytes: `MAX_PAGES * PAGE_SIZE`.
pub const MAX_DB_SIZE_BYTES: u64 = 17592186044416;

} // verus!
