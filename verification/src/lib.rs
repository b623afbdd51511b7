//! User-mode virtual-memory manager for a compute accelerator.
//!
//! The crate partitions a process's address space into apertures (bounded
//! virtual-address regions with distinct GPU-visibility semantics), allocates
//! and releases byte ranges inside them under alignment and guard-page
//! constraints, and tracks every live allocation in an ordered interval index.

pub mod fmm;
pub mod fmm_types;
pub mod globals;
pub mod hsakmttypes;
pub mod kfd_ioctl;
pub mod open_close;
pub mod rbtree;
pub mod rbtree_amd;
pub mod topology;
pub mod topology_utils;
pub mod version;
