//! The aperture data model: a bounded virtual-address region owning an
//! ordered index of its live allocations, one allocation strategy, and the
//! bookkeeping record of one allocation.

#![allow(non_camel_case_types)]
#![allow(non_snake_case)]

use crate::hsakmttypes::{HsaMemFlags, HSA_ENGINE_ID};
use crate::rbtree::rbtree_s;
use crate::rbtree_amd::rbtree_key_s;
use vstd::prelude::*;

verus! {

/// The two shared SVM apertures, by cache-coherency role.
pub enum svm_aperture_type {
    SVM_DEFAULT,
    SVM_COHERENT,
    SVM_APERTURE_NUM,
}

/// The allocation strategy an aperture was constructed with. The strategy is
/// fixed at construction and never changes afterwards.
#[derive(Debug, Clone, Copy, PartialEq, Eq, Structural)]
pub enum manageable_aperture_ops_t {
    /// Each request is delegated straight to the OS mapping primitive.
    DirectMapped,
    /// Requests are sub-allocated out of one pre-reserved VA block, with the
    /// aperture's own tree as the free-extent index.
    ReservedRange,
    /// No strategy bound; the aperture cannot serve allocations.
    NoOps,
}

/// A range `[addr, addr + size - 1]` described by an interval key.
pub open spec fn key_overlaps_range(k: rbtree_key_s, a: int, s: int) -> bool {
    k.addr <= a + s - 1 && a <= k.addr + k.size - 1
}

pub open spec fn keys_overlap(k1: rbtree_key_s, k2: rbtree_key_s) -> bool {
    key_overlaps_range(k1, k2.addr as int, k2.size as int)
}

/// No stored interval touches the range `[a, a + s - 1]`.
pub open spec fn range_is_free(m: Map<rbtree_key_s, u64>, a: int, s: int) -> bool {
    forall|k: rbtree_key_s| #[trigger] m.dom().contains(k) ==> !key_overlaps_range(k, a, s)
}

/// The stored intervals are pairwise non-overlapping.
pub open spec fn intervals_disjoint(m: Map<rbtree_key_s, u64>) -> bool {
    forall|k1: rbtree_key_s, k2: rbtree_key_s|
        #[trigger] m.dom().contains(k1) && #[trigger] m.dom().contains(k2) && k1 != k2
            ==> !keys_overlap(k1, k2)
}

/// Memory manager for an aperture.
#[derive(Debug)]
pub struct manageable_aperture {
    pub base: u64,
    pub limit: u64,
    pub align: u64,
    pub guard_pages: u32,
    pub is_cpu_accessible: bool,
    pub ops: manageable_aperture_ops_t,
    /// Live allocations keyed by device address interval.
    pub tree: rbtree_s,
    /// Live userptr registrations keyed by user address interval.
    pub user_tree: rbtree_s,
}

pub type manageable_aperture_t = manageable_aperture;

impl manageable_aperture {
    /// The allocated intervals, keyed by `(start, size)`, each carrying its
    /// opaque device handle.
    pub open spec fn intervals(self) -> Map<rbtree_key_s, u64> {
        self.tree@
    }

    pub open spec fn interval_in_bounds(self, k: rbtree_key_s) -> bool {
        self.base <= k.addr && 1 <= k.size && k.addr + k.size - 1 <= self.limit
    }

    /// Aperture invariant: both indexes are valid trees, every stored
    /// interval lies inside `[base, limit]`, and the stored intervals are
    /// pairwise non-overlapping.
    pub open spec fn inv(self) -> bool {
        &&& self.tree.inv()
        &&& self.user_tree.inv()
        &&& forall|k: rbtree_key_s| #[trigger]
            self.tree@.dom().contains(k) ==> self.interval_in_bounds(k)
        &&& intervals_disjoint(self.tree@)
    }
}

impl Default for manageable_aperture {
    fn default() -> (r: Self)
        ensures
            r.base == 0,
            r.limit == 0,
            r.align == 0,
            r.guard_pages == 0,
            !r.is_cpu_accessible,
            r.ops == manageable_aperture_ops_t::NoOps,
            r.tree@ == Map::<rbtree_key_s, u64>::empty(),
            r.user_tree@ == Map::<rbtree_key_s, u64>::empty(),
            r.inv(),
    {
        manageable_aperture {
            base: 0,
            limit: 0,
            align: 0,
            guard_pages: 0,
            is_cpu_accessible: false,
            ops: manageable_aperture_ops_t::NoOps,
            tree: rbtree_s::new(),
            user_tree: rbtree_s::new(),
        }
    }
}

impl manageable_aperture {
    /// A fresh aperture spanning `[base, limit]` with no strategy bound yet.
    pub fn INIT_MANAGEABLE_APERTURE(base: u64, limit: u64) -> (r: Self)
        ensures
            r.base == base,
            r.limit == limit,
            r.align == 0,
            r.guard_pages == 0,
            !r.is_cpu_accessible,
            r.ops == manageable_aperture_ops_t::NoOps,
            r.tree@ == Map::<rbtree_key_s, u64>::empty(),
            r.user_tree@ == Map::<rbtree_key_s, u64>::empty(),
            r.inv(),
    {
        manageable_aperture {
            base,
            limit,
            align: 0,
            guard_pages: 0,
            is_cpu_accessible: false,
            ops: manageable_aperture_ops_t::NoOps,
            tree: rbtree_s::new(),
            user_tree: rbtree_s::new(),
        }
    }
}

/// A simple bounded region without its own allocator.
#[derive(Debug, Clone, Copy, PartialEq, Eq, Structural)]
pub struct aperture_t {
    pub base: u64,
    pub limit: u64,
}

/// The bookkeeping record for one device-memory (or device-mapped host
/// memory) allocation.
#[derive(Debug, Clone)]
pub struct vm_object {
    pub start: u64,
    pub userptr: u64,
    pub userptr_size: u64,
    pub size: u64,
    pub handle: u64,
    pub node_id: u32,
    pub mflags: HsaMemFlags,
    pub registered_device_id_array: Vec<u32>,
    pub registered_node_id_array: Vec<u32>,
    pub registration_count: u32,
    pub mapped_device_id_array: Vec<u32>,
    pub mapped_node_id_array: Vec<u32>,
    pub mapping_count: u32,
    pub is_imported_kfd_bo: bool,
}

pub type vm_object_t = vm_object;

impl Default for vm_object {
    fn default() -> (r: Self)
        ensures
            r.start == 0,
            r.userptr == 0,
            r.userptr_size == 0,
            r.size == 0,
            r.handle == 0,
            r.node_id == 0,
            r.registration_count == 0,
            r.mapping_count == 0,
            !r.is_imported_kfd_bo,
    {
        vm_object {
            start: 0,
            userptr: 0,
            userptr_size: 0,
            size: 0,
            handle: 0,
            node_id: 0,
            mflags: HsaMemFlags {
                ReadOnly: false,
                CoarseGrain: false,
                ExtendedCoherent: false,
                HostAccess: false,
                NonPaged: false,
            },
            registered_device_id_array: Vec::new(),
            registered_node_id_array: Vec::new(),
            registration_count: 0,
            mapped_device_id_array: Vec::new(),
            mapped_node_id_array: Vec::new(),
            mapping_count: 0,
            is_imported_kfd_bo: false,
        }
    }
}

/// The main structure for shared virtual memory management: two apertures
/// that may carry different cache-coherency treatment, plus configuration.
#[derive(Debug)]
pub struct svm_t {
    /// The non-coherent (default) SVM aperture.
    pub dgpu_aperture: manageable_aperture_t,
    /// The coherent SVM aperture (the first quarter of a reserved block).
    pub dgpu_alt_aperture: manageable_aperture_t,
    /// In the unreserved mode both roles are served by the default aperture.
    pub aliased: bool,
    pub userptr_for_paged_mem: bool,
    pub check_userptr: bool,
    pub reserve_svm: bool,
    pub disable_cache: bool,
    /// Alignment ceiling order: the promotion cap is page size shifted left
    /// by this order.
    pub alignment_order: u32,
}

impl Default for svm_t {
    fn default() -> (r: Self)
        ensures
            r.dgpu_aperture.inv(),
            r.dgpu_alt_aperture.inv(),
            r.dgpu_aperture.base == 0 && r.dgpu_aperture.limit == 0,
            r.dgpu_alt_aperture.base == 0 && r.dgpu_alt_aperture.limit == 0,
            !r.aliased,
            !r.reserve_svm,
            !r.disable_cache,
            r.alignment_order == 0,
    {
        svm_t {
            dgpu_aperture: manageable_aperture::default(),
            dgpu_alt_aperture: manageable_aperture::default(),
            aliased: false,
            userptr_for_paged_mem: false,
            check_userptr: false,
            reserve_svm: false,
            disable_cache: false,
            alignment_order: 0,
        }
    }
}

impl svm_t {
    pub fn dgpu_aperture_index(&self) -> (r: usize)
        ensures
            r == 0,
    {
        0
    }

    pub fn dgpu_alt_aperture_index(&self) -> (r: usize)
        ensures
            r == 0,
    {
        0
    }
}

/// Per-GPU memory apertures and identifiers.
#[derive(Debug)]
pub struct gpu_mem_t {
    pub gpu_id: u32,
    pub device_id: u32,
    pub node_id: u32,
    pub local_mem_size: u64,
    pub EngineId: HSA_ENGINE_ID,
    pub lds_aperture: aperture_t,
    pub scratch_aperture: aperture_t,
    pub mmio_aperture: aperture_t,
    pub scratch_physical: manageable_aperture_t,
    pub gpuvm_aperture: manageable_aperture_t,
    pub drm_render_fd: i32,
    pub usable_peer_id_num: u32,
    pub usable_peer_id_array: Vec<u32>,
    pub drm_render_minor: u32,
}

impl Default for gpu_mem_t {
    fn default() -> (r: Self)
        ensures
            r.gpu_id == 0,
            r.node_id == 0,
            r.usable_peer_id_num == 0,
            r.usable_peer_id_array@.len() == 0,
            r.scratch_physical.inv(),
            r.gpuvm_aperture.inv(),
    {
        gpu_mem_t {
            gpu_id: 0,
            device_id: 0,
            node_id: 0,
            local_mem_size: 0,
            EngineId: HSA_ENGINE_ID { Major: 0, Minor: 0, Stepping: 0 },
            lds_aperture: aperture_t { base: 0, limit: 0 },
            scratch_aperture: aperture_t { base: 0, limit: 0 },
            mmio_aperture: aperture_t { base: 0, limit: 0 },
            scratch_physical: manageable_aperture::default(),
            gpuvm_aperture: manageable_aperture::default(),
            drm_render_fd: 0,
            usable_peer_id_num: 0,
            usable_peer_id_array: Vec::new(),
            drm_render_minor: 0,
        }
    }
}

/// Render-node handles are cached for the process lifetime within this
/// reserved minor-number range.
pub const DRM_FIRST_RENDER_NODE: usize = 128;

pub const DRM_LAST_RENDER_NODE: usize = 255;

} // verus!
