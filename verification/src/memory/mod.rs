//! Physical memory, frame allocation and page tables.

pub mod contents;
pub mod entries;
pub mod laws;
pub mod paging;
pub mod physical;
pub mod pool;
pub mod preparing;
pub mod ram;
pub mod sharing;

pub use crate::memory::physical::{
    frame_kind, frame_stats, frame_tag, free_all, global_alloc_4k, global_free_4k, init_global_allocator,
    FrameAllocator, FrameKind, PhysicalAllocator,
};
pub use crate::memory::ram::PhysMemory;
pub use crate::memory::pool::{
    pool_alloc_pt, pool_available, pool_capacity, pool_free_pt, pool_init, PtPool, PT_POOL_CAP,
};
pub use crate::memory::paging::{
    identity_map_region, map_crash_log_page, map_page, map_page_global, remap_page_flags,
    split_huge_page_global, translate_address, unmap_page, KernelMemory, PageTable,
    PTE_ADDR_MASK, PTE_NO_EXECUTE, PTE_PRESENT, PTE_USER, PTE_WRITABLE,
};
pub use crate::memory::sharing::{merge_hidden_kernel, merge_kernel_into_user_pml4};
