//! A verified buffer pool manager: the in-memory paging layer of a
//! disk-backed database.
//!
//! The library caches a bounded number of fixed-size pages in memory,
//! tracks pin counts and dirty flags per frame, selects eviction victims
//! through a FIFO replacement policy, and writes dirty pages back to the
//! backing store before a frame is reused.

pub mod buffer_pool_manager;
pub mod config;
pub mod disk_manager;
pub mod error;
pub mod fifo;
pub mod frame;
pub mod frame_id;
pub mod page;
pub mod page_guard;
pub mod page_header;
pub mod page_id;
pub mod stats;
pub mod text;

pub use config::PAGE_SIZE;
pub use disk_manager::DiskManager;
pub use error::Error;
pub use frame_id::FrameId;
pub use page::Page;
pub use page_guard::{PageReadGuard, PageWriteGuard};
pub use page_header::{PageHeader, PageType};
pub use page_id::PageId;
pub use stats::{BufferPoolStats, StatsSnapshot};
pub use buffer_pool_manager::BufferPoolManager;
pub use fifo::FifoReplacer;
pub use frame::Frame;
