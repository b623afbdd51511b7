//! Flag and policy constants of the device control channel's allocation and
//! cache-policy requests.

#![allow(non_camel_case_types)]

use vstd::prelude::*;

verus! {

pub const KFD_IOC_ALLOC_MEM_FLAGS_VRAM: u32 = 0x1;

pub const KFD_IOC_ALLOC_MEM_FLAGS_GTT: u32 = 0x2;

pub const KFD_IOC_ALLOC_MEM_FLAGS_USERPTR: u32 = 0x4;

pub const KFD_IOC_ALLOC_MEM_FLAGS_DOORBELL: u32 = 0x8;

pub const KFD_IOC_ALLOC_MEM_FLAGS_MMIO_REMAP: u32 = 0x10;

pub const KFD_IOC_ALLOC_MEM_FLAGS_WRITABLE: u32 = 0x80000000;

pub const KFD_IOC_ALLOC_MEM_FLAGS_EXECUTABLE: u32 = 0x40000000;

pub const KFD_IOC_ALLOC_MEM_FLAGS_PUBLIC: u32 = 0x20000000;

pub const KFD_IOC_ALLOC_MEM_FLAGS_NO_SUBSTITUTE: u32 = 0x10000000;

pub const KFD_IOC_ALLOC_MEM_FLAGS_AQL_QUEUE_MEM: u32 = 0x8000000;

pub const KFD_IOC_ALLOC_MEM_FLAGS_COHERENT: u32 = 0x4000000;

pub const KFD_IOC_ALLOC_MEM_FLAGS_UNINITIALIZED: u32 = 0x2000000;

pub const KFD_IOC_ALLOC_MEM_FLAGS_EXT_COHERENT: u32 = 0x1000000;

pub const KFD_IOC_CACHE_POLICY_COHERENT: u32 = 0;

pub const KFD_IOC_CACHE_POLICY_NONCOHERENT: u32 = 1;


/// Per-node aperture bounds as the control channel reports them.
#[derive(Debug, Clone, Copy, PartialEq, Eq, Structural)]
pub struct kfd_process_device_apertures {
    pub gpu_id: u32,
    pub lds_base: u64,
    pub lds_limit: u64,
    pub scratch_base: u64,
    pub scratch_limit: u64,
    pub gpuvm_base: u64,
    pub gpuvm_limit: u64,
}

impl kfd_process_device_apertures {
    pub fn zeroed() -> (r: kfd_process_device_apertures)
        ensures
            r.gpu_id == 0,
            r.gpuvm_base == 0,
            r.gpuvm_limit == 0,
    {
        kfd_process_device_apertures {
            gpu_id: 0,
            lds_base: 0,
            lds_limit: 0,
            scratch_base: 0,
            scratch_limit: 0,
            gpuvm_base: 0,
            gpuvm_limit: 0,
        }
    }
}

} // verus!
