use hsakmt::fmm::{OsMapRequest, SVM_MIN_VM_SIZE};
use hsakmt::globals::HsakmtGlobals;
use hsakmt::hsakmttypes::HsakmtStatus;
use hsakmt::kfd_ioctl::{kfd_process_device_apertures, KFD_IOC_CACHE_POLICY_NONCOHERENT};
use hsakmt::rbtree_amd::rbtree_lookup_nearest;

fn globals_with_pages() -> HsakmtGlobals {
    let mut g = HsakmtGlobals::new();
    g.hsakmt_page_size = 4096;
    g.hsakmt_page_shift = 12;
    g.fmm.svm.alignment_order = 9;
    g
}

/// Grants every reservation at the hinted address.
fn granting_prober(req: OsMapRequest) -> u64 {
    match req {
        OsMapRequest::AnonNoAccess { .. } => 0x7000_0000_0000,
        OsMapRequest::AnonNoAccessAt { addr, .. } => addr,
        OsMapRequest::FixedNoReplace { addr, .. } => addr,
        OsMapRequest::FixedAccess { addr, .. } => addr,
        _ => 0,
    }
}

/// Refuses every reservation.
fn refusing_prober(_req: OsMapRequest) -> u64 {
    0
}

#[test]
fn test_svm_reservation_search_respects_floor_and_limit() {
    let mut g = globals_with_pages();
    g.fmm.svm.reserve_svm = true; // force the dedicated reservation path
    let base = 0x1_0000_0000u64;
    let limit = 0x20_0000_0000u64 - 1;
    let st = g.init_svm_apertures(base, limit, 4096, 1, granting_prober);
    assert_eq!(st, HsakmtStatus::HSAKMT_STATUS_SUCCESS);
    assert!(!g.fmm.svm.aliased);
    let sbase = g.fmm.dgpu_shared_aperture_base;
    let slimit = g.fmm.dgpu_shared_aperture_limit;
    // The accepted range is at least the 4 GiB floor and never ends past
    // the requested limit.
    assert!(slimit - sbase + 1 >= SVM_MIN_VM_SIZE);
    assert!(slimit <= limit);
    // The split: a coherent first quarter (64 KiB aligned) and the
    // non-coherent remainder.
    let alt = &g.fmm.svm.dgpu_alt_aperture;
    let dflt = &g.fmm.svm.dgpu_aperture;
    assert_eq!(alt.base % 65536, 0);
    assert!(alt.base >= sbase && alt.base <= alt.limit);
    assert_eq!(dflt.base, alt.limit + 1);
    assert_eq!(dflt.limit, slimit);
}

#[test]
fn test_svm_search_failure_leaves_state_untouched() {
    let mut g = globals_with_pages();
    g.fmm.svm.reserve_svm = true;
    let st = g.init_svm_apertures(0x1_0000_0000, 0x20_0000_0000 - 1, 4096, 1, refusing_prober);
    assert_eq!(st, HsakmtStatus::HSAKMT_STATUS_ERROR);
    assert_eq!(g.fmm.dgpu_shared_aperture_base, 0);
    assert_eq!(g.fmm.dgpu_shared_aperture_limit, 0);
    assert_eq!(g.fmm.svm.dgpu_aperture.base, 0);
    assert_eq!(g.fmm.svm.dgpu_aperture.limit, 0);
}

#[test]
fn test_svm_unreserved_path_aliases_one_aperture() {
    let mut g = globals_with_pages();
    let base = 0x1000u64;
    let limit = (1u64 << 47) - 1;
    let st = g.init_svm_apertures(base, limit, 4096, 1, granting_prober);
    assert_eq!(st, HsakmtStatus::HSAKMT_STATUS_SUCCESS);
    assert!(g.fmm.svm.aliased);
}

#[test]
fn test_two_node_initialization_scenario() {
    // Node A reports a GPUVM limit below the canonical boundary; node B
    // reports one at it. A keeps a private aperture with its first block
    // reserved; B stays null and alone defines the shared SVM bounds.
    let mut g = globals_with_pages();
    let mut gm_a = hsakmt::fmm_types::gpu_mem_t::default();
    gm_a.gpu_id = 0xa;
    gm_a.node_id = 0;
    gm_a.gpuvm_aperture.align = 4096;
    let mut gm_b = hsakmt::fmm_types::gpu_mem_t::default();
    gm_b.gpu_id = 0xb;
    gm_b.node_id = 1;
    gm_b.gpuvm_aperture.align = 4096;
    g.fmm.gpu_mem.push(gm_a);
    g.fmm.gpu_mem.push(gm_b);

    let pa_a = kfd_process_device_apertures {
        gpu_id: 0xa,
        lds_base: 0x11,
        lds_limit: 0x12,
        scratch_base: 0x21,
        scratch_limit: 0x22,
        gpuvm_base: 0x100000,
        gpuvm_limit: 0x1ffffff,
    };
    let pa_b = kfd_process_device_apertures {
        gpu_id: 0xb,
        lds_base: 0x31,
        lds_limit: 0x32,
        scratch_base: 0x41,
        scratch_limit: 0x42,
        gpuvm_base: 0x2_0000_0000,
        gpuvm_limit: (1u64 << 47) - 1,
    };

    let mut svm_base = 0u64;
    let mut svm_limit = 0u64;
    let mut svm_align = 0u32;

    let ia = g.gpu_mem_find_by_gpu_id(pa_a.gpu_id);
    assert_eq!(ia, 0);
    let ra = g.fmm_node_set_apertures(ia as usize, &pa_a);
    // A gets a private aperture with its first block unavailable for reuse.
    let first = ra.expect("the start of the private aperture must be reserved");
    assert_eq!(first, 0x100000);
    let gpuvm = &g.fmm.gpu_mem[0].gpuvm_aperture;
    assert_eq!(gpuvm.base, 0x100000);
    assert_eq!(gpuvm.limit, 0x1ffffff);
    let probe = hsakmt::rbtree_amd::rbtree_key(first, 4096);
    let hit = rbtree_lookup_nearest(&gpuvm.tree, &probe, 3, 2).unwrap();
    assert_eq!(hit.0.addr, first);

    let ib = g.gpu_mem_find_by_gpu_id(pa_b.gpu_id);
    assert_eq!(ib, 1);
    let rb = g.fmm_node_set_apertures(ib as usize, &pa_b);
    assert!(rb.is_none());
    // B's private aperture fields stay null.
    assert_eq!(g.fmm.gpu_mem[1].gpuvm_aperture.base, 0);
    assert_eq!(g.fmm.gpu_mem[1].gpuvm_aperture.limit, 0);

    // Only B is canonical, so only B feeds the shared bounds.
    let vm_alignment = g.get_vm_alignment(0);
    fmm_update_svm_aggregate_for(&pa_b, vm_alignment, &mut svm_base, &mut svm_limit, &mut svm_align);
    assert_eq!(svm_base, pa_b.gpuvm_base);
    assert_eq!(svm_limit, pa_b.gpuvm_limit);
    assert_eq!(svm_align, 4096);

    // The memory policy programmed for canonical nodes matches the split.
    g.fmm.svm.dgpu_alt_aperture.base = 0x1000;
    g.fmm.svm.dgpu_alt_aperture.limit = 0x1fff;
    let (d, a, ab, asz) = g.fmm_memory_policy_args();
    assert_eq!(d, KFD_IOC_CACHE_POLICY_NONCOHERENT);
    assert_eq!(a, hsakmt::kfd_ioctl::KFD_IOC_CACHE_POLICY_COHERENT);
    assert_eq!(ab, 0x1000);
    assert_eq!(asz, 0x1000);
}

fn fmm_update_svm_aggregate_for(
    pa: &kfd_process_device_apertures,
    vm_alignment: u32,
    svm_base: &mut u64,
    svm_limit: &mut u64,
    svm_align: &mut u32,
) {
    hsakmt::fmm::fmm_update_svm_aggregate(
        pa.gpuvm_base,
        pa.gpuvm_limit,
        vm_alignment,
        svm_base,
        svm_limit,
        svm_align,
    );
}

#[test]
fn test_mem_handle_aperture_search() {
    let mut g = globals_with_pages();
    let mut gm = hsakmt::fmm_types::gpu_mem_t::default();
    // A GPU aperture squatting on the first non-canonical hole.
    gm.lds_aperture.base = 1u64 << 47;
    gm.lds_aperture.limit = (1u64 << 48) + (1u64 << 46);
    g.fmm.gpu_mem.push(gm);
    let found = g.init_mem_handle_aperture(4096, 1);
    assert!(found);
    let b = g.fmm.mem_handle_aperture.base;
    let l = g.fmm.mem_handle_aperture.limit;
    // The settled hole avoids the squatter.
    assert!(l < (1u64 << 47) || b > (1u64 << 48) + (1u64 << 46));
}

#[test]
fn test_svm_inherited_reservation_is_a_noop_success() {
    let mut g = globals_with_pages();
    g.fmm.dgpu_shared_aperture_base = 0x2_0000_0000;
    g.fmm.dgpu_shared_aperture_limit = 0x4_0000_0000;
    let st = g.init_svm_apertures(0x1_0000_0000, 0x20_0000_0000 - 1, 4096, 1, refusing_prober);
    assert_eq!(st, HsakmtStatus::HSAKMT_STATUS_SUCCESS);
    assert_eq!(g.fmm.dgpu_shared_aperture_base, 0x2_0000_0000);
    assert_eq!(g.fmm.dgpu_shared_aperture_limit, 0x4_0000_0000);
}

#[test]
fn test_svm_empty_window_is_an_error() {
    let mut g = globals_with_pages();
    g.fmm.svm.reserve_svm = true;
    // The huge-page-aligned base reaches the rounded-down limit: no window.
    let st = g.init_svm_apertures(0x1_0000_0000, 0x1_0000_0000, 4096, 1, granting_prober);
    assert_eq!(st, HsakmtStatus::HSAKMT_STATUS_ERROR);
    assert_eq!(g.fmm.dgpu_shared_aperture_limit, 0);
}

#[test]
fn test_unreserved_path_rejects_large_alignment() {
    let mut g = globals_with_pages();
    let st = g.init_mmap_apertures(0x1000, (1u64 << 47) - 1, 8192, 1, granting_prober);
    assert_eq!(st, HsakmtStatus::HSAKMT_STATUS_ERROR);
    assert!(!g.fmm.svm.aliased);
}

#[test]
fn test_node_reservation_is_owed_when_the_range_has_room() {
    let mut g = globals_with_pages();
    let mut gm = hsakmt::fmm_types::gpu_mem_t::default();
    gm.gpu_id = 0xc;
    gm.gpuvm_aperture.align = 4096;
    g.fmm.gpu_mem.push(gm);
    let pa = kfd_process_device_apertures {
        gpu_id: 0xc,
        lds_base: 0,
        lds_limit: 0,
        scratch_base: 0,
        scratch_limit: 0,
        gpuvm_base: 0x40000000,
        gpuvm_limit: 0x7fffffff,
    };
    let r = g.fmm_node_set_apertures(0, &pa);
    assert_eq!(r, Some(0x40000000));
}
