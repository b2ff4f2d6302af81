//! Early-boot core: a reader and query engine for flattened devicetree blobs,
//! and the bump arena that serves allocations before any heap exists.

pub mod align;
pub mod fdt;
pub mod inttypes;
pub mod mem;
