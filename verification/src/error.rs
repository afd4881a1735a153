//! Error type shared by the whole library.

use vstd::prelude::*;
use vstd::string::StringExecFns;

use crate::text::{decimal_str, decimal_string};

verus! {

/// All possible errors of the buffer pool layer.
#[derive(Debug, Clone, PartialEq, Eq)]
pub enum Error {
    /// An error reported by the backing store, carrying its message.
    Io(String),
    /// The requested page does not exist on the backing store.
    PageNotFound(u32),
    /// The pool has no free frame and cannot evict any page.
    NoFreeFrames,
    /// The provided page id is invalid.
    InvalidPageId(u32),
    /// The buffer pool is at maximum capacity.
    BufferPoolFull,
    /// Attempted to delete a page whose pin count is non-zero.
    PageNotPinned(u32),
}

impl Error {
    /// Wrap a backing-store error message.
    pub fn io(message: String) -> (r: Self)
        ensures
            r == Error::Io(message),
    {
        Error::Io(message)
    }

    /// A human-readable description of the error.
    pub fn message(&self) -> (r: String)
        ensures
            match self {
                Error::Io(m) => r@ == "I/O error: "@ + m@,
                Error::PageNotFound(pid) => r@ == "Page "@ + decimal_str(*pid as nat)
                    + " not found"@,
                Error::NoFreeFrames => r@ == "No free frames available in buffer pool"@,
                Error::InvalidPageId(pid) => r@ == "Invalid page ID: "@ + decimal_str(*pid as nat),
                Error::BufferPoolFull => r@ == "Buffer pool is full"@,
                Error::PageNotPinned(pid) => r@ == "Page "@ + decimal_str(*pid as nat)
                    + " is not pinned"@,
            },
    {
        match self {
            Error::Io(m) => {
                let mut s = String::from_str("I/O error: ");
                s.append(m.as_str());
                s
            },
            Error::PageNotFound(pid) => {
                let mut s = String::from_str("Page ");
                let d = decimal_string(*pid as u64);
                s.append(d.as_str());
                s.append(" not found");
                s
            },
            Error::NoFreeFrames => String::from_str("No free frames available in buffer pool"),
            Error::InvalidPageId(pid) => {
                let mut s = String::from_str("Invalid page ID: ");
                let d = decimal_string(*pid as u64);
                s.append(d.as_str());
                s
            },
            Error::BufferPoolFull => String::from_str("Buffer pool is full"),
            Error::PageNotPinned(pid) => {
                let mut s = String::from_str("Page ");
                let d = decimal_string(*pid as u64);
                s.append(d.as_str());
                s.append(" is not pinned");
                s
            },
        }
    }
}

} // verus!
