//! The process-wide context object: all apertures, cached render-node
//! handles, topology and version state, constructed once at open and torn
//! down at close.

#![allow(non_snake_case)]

use crate::fmm::START_NON_CANONICAL_ADDR;
use crate::fmm_types::{
    gpu_mem_t, manageable_aperture_t, svm_t, DRM_FIRST_RENDER_NODE, DRM_LAST_RENDER_NODE,
};
use crate::hsakmttypes::{node_props_t, HsaSystemProperties, HsaVersionInfo};
use crate::topology_utils::SysDevicesVirtualKfd;
use vstd::prelude::*;

verus! {

#[derive(Debug)]
pub struct TopologyGlobals {
    pub g_system: HsaSystemProperties,
    pub g_props: Vec<node_props_t>,
    /// Caches sysfs node ids of CPU nodes and all supported GPU nodes, to
    /// map user node ids to sysfs node ids.
    pub map_user_to_sysfs_node_id: Vec<usize>,
    pub map_user_to_sysfs_node_id_size: usize,
    pub num_sysfs_nodes: usize,
    pub sys_devices_virtual_kfd: SysDevicesVirtualKfd,
}

impl TopologyGlobals {
    /// Empty topology state; the embedding loads the sysfs snapshot into it.
    pub fn new() -> (r: Self)
        ensures
            r.g_props@.len() == 0,
            r.num_sysfs_nodes == 0,
            r.sys_devices_virtual_kfd.nodes@.len() == 0,
    {
        TopologyGlobals {
            g_system: HsaSystemProperties::zeroed(),
            g_props: Vec::new(),
            map_user_to_sysfs_node_id: Vec::new(),
            map_user_to_sysfs_node_id_size: 0,
            num_sysfs_nodes: 0,
            sys_devices_virtual_kfd: SysDevicesVirtualKfd::new(),
        }
    }
}

#[derive(Debug)]
pub struct FmmGlobals {
    /// One cached OS file handle per render node in the reserved minor
    /// range; 0 marks a slot that was never opened.
    pub drm_render_fds: Vec<i32>,
    pub svm: svm_t,
    pub gpu_mem: Vec<gpu_mem_t>,
    pub gpu_mem_count: u32,
    pub all_gpu_id_array_size: u32,
    pub all_gpu_id_array: Vec<u32>,
    pub dgpu_shared_aperture_base: u64,
    pub dgpu_shared_aperture_limit: u64,
    /// CPU-only memory the GPU driver does not manage.
    pub cpuvm_aperture: manageable_aperture_t,
    /// Generates memory handles for allocations without a valid virtual
    /// address; spans the non-canonical range.
    pub mem_handle_aperture: manageable_aperture_t,
}

impl FmmGlobals {
    pub fn new() -> (r: Self)
        ensures
            r.drm_render_fds@.len() == DRM_LAST_RENDER_NODE + 1 - DRM_FIRST_RENDER_NODE,
            forall|i: int|
                0 <= i < r.drm_render_fds@.len() ==> r.drm_render_fds@[i] == 0i32,
            r.gpu_mem@.len() == 0,
            r.gpu_mem_count == 0,
            r.dgpu_shared_aperture_base == 0,
            r.dgpu_shared_aperture_limit == 0,
            r.svm.dgpu_aperture.inv(),
            r.svm.dgpu_alt_aperture.inv(),
            r.cpuvm_aperture.inv(),
            r.mem_handle_aperture.inv(),
            r.cpuvm_aperture.base == 0 && r.cpuvm_aperture.limit == 0,
            r.mem_handle_aperture.base == START_NON_CANONICAL_ADDR,
    {
        let mut fds: Vec<i32> = Vec::new();
        let mut i: usize = 0;
        while i < DRM_LAST_RENDER_NODE + 1 - DRM_FIRST_RENDER_NODE
            invariant
                fds@.len() == i,
                i <= DRM_LAST_RENDER_NODE + 1 - DRM_FIRST_RENDER_NODE,
                forall|j: int| 0 <= j < i ==> fds@[j] == 0i32,
            decreases DRM_LAST_RENDER_NODE + 1 - DRM_FIRST_RENDER_NODE - i,
        {
            fds.push(0);
            i = i + 1;
        }
        FmmGlobals {
            drm_render_fds: fds,
            svm: svm_t::default(),
            gpu_mem: Vec::new(),
            gpu_mem_count: 0,
            all_gpu_id_array_size: 0,
            all_gpu_id_array: Vec::new(),
            dgpu_shared_aperture_base: 0,
            dgpu_shared_aperture_limit: 0,
            cpuvm_aperture: manageable_aperture_t::INIT_MANAGEABLE_APERTURE(0, 0),
            mem_handle_aperture: manageable_aperture_t::INIT_MANAGEABLE_APERTURE(
                START_NON_CANONICAL_ADDR,
                START_NON_CANONICAL_ADDR + START_NON_CANONICAL_ADDR,
            ),
        }
    }
}

#[derive(Debug)]
pub struct VersionGlobals {
    pub kfd: HsaVersionInfo,
}

#[derive(Debug)]
pub struct HsakmtGlobals {
    pub fmm: FmmGlobals,
    pub topology: TopologyGlobals,
    pub version: VersionGlobals,
    pub hsakmt_kfd_open_count: usize,
    pub hsakmt_kfd_fd: i32,
    pub hsakmt_system_properties_count: u64,
    pub hsakmt_is_dgpu: bool,
    pub hsakmt_page_size: i32,
    pub hsakmt_page_shift: i32,
    /// Whether all dGPUs in the topology support the SVM API.
    pub hsakmt_is_svm_api_supported: bool,
    pub hsakmt_zfb_support: i32,
}

impl HsakmtGlobals {
    pub fn new() -> (r: Self)
        ensures
            r.hsakmt_kfd_open_count == 0,
            r.hsakmt_kfd_fd == -1,
            r.hsakmt_page_size == 0,
            !r.hsakmt_is_dgpu,
            !r.hsakmt_is_svm_api_supported,
            r.version.kfd.KernelInterfaceMajorVersion == 0,
            r.version.kfd.KernelInterfaceMinorVersion == 0,
            r.fmm.gpu_mem@.len() == 0,
            r.fmm.svm.dgpu_aperture.inv(),
            r.fmm.svm.dgpu_alt_aperture.inv(),
            r.fmm.dgpu_shared_aperture_base == 0,
            r.fmm.dgpu_shared_aperture_limit == 0,
    {
        HsakmtGlobals {
            fmm: FmmGlobals::new(),
            topology: TopologyGlobals::new(),
            version: VersionGlobals {
                kfd: HsaVersionInfo { KernelInterfaceMajorVersion: 0, KernelInterfaceMinorVersion: 0 },
            },
            hsakmt_kfd_open_count: 0,
            hsakmt_kfd_fd: -1,
            hsakmt_system_properties_count: 0,
            hsakmt_is_dgpu: false,
            hsakmt_page_size: 0,
            hsakmt_page_shift: 0,
            hsakmt_is_svm_api_supported: false,
            hsakmt_zfb_support: 0,
        }
    }

    /// Using an aperture before process-level initialization completed is a
    /// programmer error; callers must hold an open channel.
    pub fn check_kfd_open_and_panic(&self)
        requires
            self.hsakmt_kfd_open_count != 0,
    {
    }

    pub fn PAGE_SIZE(&self) -> (r: i32)
        ensures
            r == self.hsakmt_page_size,
    {
        self.hsakmt_page_size
    }
}

} // verus!
