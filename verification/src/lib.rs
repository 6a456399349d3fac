//! Memory-management core for a user-space NIC driver.
//!
//! Provides huge-page-backed DMA region planning and bookkeeping, a
//! fixed-entry packet-buffer pool (`Mempool`) with a free-list discipline,
//! and `Packet` handles that tie one checked-out pool entry to a logical
//! byte range. The actual system calls (memory mapping, page locking,
//! page-table introspection) live outside this crate; everything here works
//! on plain values and is verified.

pub mod dma;
pub mod mempool;
pub mod packet;
pub mod translate;
