use hsakmt::fmm::{
    aperture_allocate_area_aligned, aperture_allocate_object, aperture_is_valid,
    aperture_release_area, fmm_translate_ioc_to_hsa_flags, fmm_update_svm_aggregate,
    hsakmt_mmap_allocate_aligned, mmap_aperture_promote_alignment,
    reserved_aperture_allocate_aligned, reserved_aperture_release, two_apertures_overlap,
    vm_create_and_init_object, vm_remove_object, OsMapRequest, IS_CANONICAL_ADDR, SVM_MIN_VM_SIZE,
    VOID_PTRS_SUB, VOID_PTR_ADD, VOID_PTR_SUB,
};
use hsakmt::fmm_types::{manageable_aperture, manageable_aperture_ops_t};
use hsakmt::hsakmttypes::{ALIGN_UP, MIN};
use hsakmt::kfd_ioctl::{
    KFD_IOC_ALLOC_MEM_FLAGS_COHERENT, KFD_IOC_ALLOC_MEM_FLAGS_EXT_COHERENT,
    KFD_IOC_ALLOC_MEM_FLAGS_PUBLIC, KFD_IOC_ALLOC_MEM_FLAGS_WRITABLE,
};
use hsakmt::rbtree::rbtree_s;

fn reserved_aperture(base: u64, limit: u64, align: u64) -> manageable_aperture {
    manageable_aperture {
        base,
        limit,
        align,
        guard_pages: 1,
        is_cpu_accessible: true,
        ops: manageable_aperture_ops_t::ReservedRange,
        tree: rbtree_s::new(),
        user_tree: rbtree_s::new(),
    }
}

#[test]
fn test_reserved_allocations_are_aligned_bounded_and_disjoint() {
    let mut ap = reserved_aperture(0x10000, 0x4ffff, 0x1000);
    let mut got = Vec::new();
    for _ in 0..8 {
        let a = reserved_aperture_allocate_aligned(&mut ap, None, 0x3000, 0x1000)
            .expect("space must be found");
        assert_eq!(a % 0x1000, 0);
        assert!(a >= ap.base);
        assert!(a + 0x3000 - 1 <= ap.limit);
        got.push(a);
    }
    // Two allocations from the same aperture never overlap.
    for i in 0..got.len() {
        for j in 0..got.len() {
            if i != j {
                let (x, y) = (got[i], got[j]);
                assert!(x + 0x3000 <= y || y + 0x3000 <= x);
            }
        }
    }
}

#[test]
fn test_reserved_release_makes_range_allocatable_again() {
    let mut ap = reserved_aperture(0x100000, 0x10ffff, 0x1000);
    let a = reserved_aperture_allocate_aligned(&mut ap, None, 0x4000, 0x1000).unwrap();
    let b = reserved_aperture_allocate_aligned(&mut ap, None, 0x4000, 0x1000).unwrap();
    assert_ne!(a, b);
    // The exact range of `a` is claimable again once released.
    reserved_aperture_release(&mut ap, a, 0x4000);
    let c = reserved_aperture_allocate_aligned(&mut ap, Some(a), 0x4000, 0x1000).unwrap();
    assert_eq!(c, a);
    // But not while it is still claimed.
    assert!(reserved_aperture_allocate_aligned(&mut ap, Some(a), 0x4000, 0x1000).is_none());
    assert!(reserved_aperture_allocate_aligned(&mut ap, Some(b), 0x1000, 0x1000).is_none());
}

#[test]
fn test_reserved_gap_search_skips_blockers() {
    let mut ap = reserved_aperture(0x1000, 0xffff, 0x1000);
    // Claim a block in the middle, then ask for more than fits before it.
    let mid = reserved_aperture_allocate_aligned(&mut ap, Some(0x3000), 0x2000, 0x1000).unwrap();
    assert_eq!(mid, 0x3000);
    let a = reserved_aperture_allocate_aligned(&mut ap, None, 0x4000, 0x1000).unwrap();
    assert_eq!(a, 0x5000);
    // A small request still fits in the gap before the blocker.
    let b = reserved_aperture_allocate_aligned(&mut ap, None, 0x1000, 0x1000).unwrap();
    assert_eq!(b, 0x1000);
    // Exhaustion reports no space and leaves the index unchanged.
    assert!(reserved_aperture_allocate_aligned(&mut ap, None, 0x9000, 0x1000).is_none());
}

#[test]
fn test_alignment_promotion_doubles_up_to_ceiling() {
    // size >= 2 * align keeps doubling the alignment until the ceiling.
    assert_eq!(mmap_aperture_promote_alignment(4096, 1 << 20, 2 << 20), 1 << 20);
    assert_eq!(mmap_aperture_promote_alignment(4096, 1 << 30, 2 << 20), 2 << 20);
    // size < 2 * align leaves the alignment unchanged.
    assert_eq!(mmap_aperture_promote_alignment(4096, 4096, 2 << 20), 4096);
    assert_eq!(mmap_aperture_promote_alignment(4096, 8191, 2 << 20), 4096);
    // One doubling exactly at the threshold.
    assert_eq!(mmap_aperture_promote_alignment(4096, 8192, 2 << 20), 8192);
}

#[test]
fn test_align_up_and_min() {
    assert_eq!(ALIGN_UP(0, 4096), 0);
    assert_eq!(ALIGN_UP(1, 4096), 4096);
    assert_eq!(ALIGN_UP(4096, 4096), 4096);
    assert_eq!(ALIGN_UP(4097, 4096), 8192);
    assert_eq!(MIN(3, 9), 3);
    assert_eq!(MIN(9, 3), 3);
    assert_eq!(VOID_PTR_ADD(100, 28), 128);
    assert_eq!(VOID_PTR_SUB(100, 28), 72);
    assert_eq!(VOID_PTRS_SUB(100, 28), 72);
}

#[test]
fn test_translate_ioc_flags() {
    let m = fmm_translate_ioc_to_hsa_flags(0);
    assert!(m.ReadOnly && m.CoarseGrain && !m.ExtendedCoherent && !m.HostAccess);
    let m = fmm_translate_ioc_to_hsa_flags(KFD_IOC_ALLOC_MEM_FLAGS_WRITABLE);
    assert!(!m.ReadOnly && m.CoarseGrain);
    let m = fmm_translate_ioc_to_hsa_flags(KFD_IOC_ALLOC_MEM_FLAGS_COHERENT);
    assert!(m.ReadOnly && !m.CoarseGrain);
    let m = fmm_translate_ioc_to_hsa_flags(
        KFD_IOC_ALLOC_MEM_FLAGS_EXT_COHERENT | KFD_IOC_ALLOC_MEM_FLAGS_PUBLIC,
    );
    assert!(m.ExtendedCoherent && m.HostAccess);
}

#[test]
fn test_mmap_allocate_aligned_validates_the_os_answer() {
    // The embedding's answer is respected when it fits the window and
    // refused (with the claim handed back) when it does not.
    let grant = |req: OsMapRequest| -> u64 {
        match req {
            OsMapRequest::AnonNoAccess { .. } => 0x201000,
            _ => 0,
        }
    };
    let r = hsakmt_mmap_allocate_aligned(true, 0x2000, 0x1000, 0x1000, 0x200000, 0x2fffff, 0x1000, grant);
    let a = r.unwrap();
    assert_eq!(a % 0x1000, 0);
    assert!(a >= 0x200000 && a + 0x2000 - 1 <= 0x2fffff);

    let out_of_range = |req: OsMapRequest| -> u64 {
        match req {
            OsMapRequest::AnonNoAccess { .. } => 0x900000,
            _ => 0,
        }
    };
    let r = hsakmt_mmap_allocate_aligned(
        true, 0x2000, 0x1000, 0x1000, 0x200000, 0x2fffff, 0x1000, out_of_range,
    );
    assert!(r.is_none());

    let fail = |_req: OsMapRequest| -> u64 { 0 };
    let r = hsakmt_mmap_allocate_aligned(true, 0x2000, 0x1000, 0x1000, 0x200000, 0x2fffff, 0x1000, fail);
    assert!(r.is_none());
}

#[test]
fn test_aperture_dispatch_and_objects() {
    let noop = |_req: OsMapRequest| -> u64 { 0 };
    let mut ap = reserved_aperture(0x40000, 0x7ffff, 0x1000);
    let a = aperture_allocate_area_aligned(&mut ap, None, 0x2000, 0x2000, 0x1000, 9, noop).unwrap();
    assert_eq!(a % 0x2000, 0);
    let obj = aperture_allocate_object(&mut ap, a, 0xdead, 0x2000, fmm_translate_ioc_to_hsa_flags(0));
    assert_eq!(obj.start, a);
    assert_eq!(obj.handle, 0xdead);
    assert_eq!(obj.size, 0x2000);
    vm_remove_object(&mut ap, &obj);
    aperture_release_area(&mut ap, a, 0x2000, noop);
    // The full range is claimable again after the object and area are gone.
    let b = aperture_allocate_area_aligned(&mut ap, Some(a), 0x2000, 0x2000, 0x1000, 9, noop);
    assert_eq!(b, Some(a));

    let o = vm_create_and_init_object(7, 8, 9, fmm_translate_ioc_to_hsa_flags(0));
    assert_eq!((o.start, o.size, o.handle, o.registration_count), (7, 8, 9, 0));

    assert!(aperture_is_valid(1, 2));
    assert!(!aperture_is_valid(0, 2));
    assert!(!aperture_is_valid(2, 1));
    assert!(two_apertures_overlap(10, 20, 15, 30));
    assert!(!two_apertures_overlap(10, 20, 21, 30));
}

#[test]
fn test_svm_aggregate_follows_max_and_min() {
    let mut base = 0u64;
    let mut limit = 0u64;
    let mut align = 0u32;
    fmm_update_svm_aggregate(0x1000, 0x7fffffffffff, 4096, &mut base, &mut limit, &mut align);
    assert_eq!((base, limit, align), (0x1000, 0x7fffffffffff, 4096));
    fmm_update_svm_aggregate(0x2000, 0x3fffffffffff, 8192, &mut base, &mut limit, &mut align);
    assert_eq!((base, limit, align), (0x2000, 0x3fffffffffff, 8192));
    fmm_update_svm_aggregate(0x1500, 0x5fffffffffff, 4096, &mut base, &mut limit, &mut align);
    assert_eq!((base, limit, align), (0x2000, 0x3fffffffffff, 8192));
}

#[test]
fn test_is_canonical_addr() {
    assert!(IS_CANONICAL_ADDR(0));
    assert!(IS_CANONICAL_ADDR((1 << 47) - 1));
    assert!(!IS_CANONICAL_ADDR(1 << 47));
    assert_eq!(SVM_MIN_VM_SIZE, 4 << 30);
}

#[test]
fn test_vm_object_release_registration_counts() {
    let g = hsakmt::globals::HsakmtGlobals::new();
    let mut plain = vm_create_and_init_object(0x1000, 0x1000, 5, fmm_translate_ioc_to_hsa_flags(0));
    assert!(g.vm_object_release_step(&mut plain));

    let mut userptr = vm_create_and_init_object(0x2000, 0x1000, 6, fmm_translate_ioc_to_hsa_flags(0));
    userptr.userptr = 0xabc000;
    userptr.registration_count = 2;
    // The region was registered twice: only the last release frees it.
    assert!(!g.vm_object_release_step(&mut userptr));
    assert_eq!(userptr.registration_count, 1);
    assert!(g.vm_object_release_step(&mut userptr));
    assert_eq!(userptr.registration_count, 0);
}

#[test]
fn test_allocation_request_va_adjustment() {
    // A dGPU request carries the reserved address itself.
    assert_eq!(hsakmt::fmm::fmm_allocation_request_va(true, false, hsakmt::kfd_ioctl::KFD_IOC_ALLOC_MEM_FLAGS_VRAM, 0x5000, 0x1000), 0x5000);
    // An integrated system's VRAM request is carried relative to the base.
    assert_eq!(hsakmt::fmm::fmm_allocation_request_va(false, false, hsakmt::kfd_ioctl::KFD_IOC_ALLOC_MEM_FLAGS_VRAM, 0x5000, 0x1000), 0x4000);
    // Non-VRAM requests keep the address either way.
    assert_eq!(hsakmt::fmm::fmm_allocation_request_va(false, false, 0, 0x5000, 0x1000), 0x5000);
    // The handle aperture carries no valid address at all.
    assert_eq!(hsakmt::fmm::fmm_allocation_request_va(false, true, hsakmt::kfd_ioctl::KFD_IOC_ALLOC_MEM_FLAGS_VRAM, 0x5000, 0x1000), 0);
}

#[test]
fn test_peer_and_gpu_id_recording() {
    let mut g = hsakmt::globals::HsakmtGlobals::new();
    let mut gm = hsakmt::fmm_types::gpu_mem_t::default();
    gm.gpu_id = 0x11;
    gm.usable_peer_id_array.push(0x11);
    gm.usable_peer_id_num = 1;
    g.fmm.gpu_mem.push(gm);
    g.fmm_record_gpu_id(0x11);
    assert_eq!(g.fmm.all_gpu_id_array, vec![0x11]);
    assert_eq!(g.fmm.all_gpu_id_array_size, 1);
    g.fmm_register_usable_peer(0, 0x22);
    assert_eq!(g.fmm.gpu_mem[0].usable_peer_id_array, vec![0x11, 0x22]);
    assert_eq!(g.fmm.gpu_mem[0].usable_peer_id_num, 2);
}

#[test]
fn test_promoted_alignment_shows_at_the_allocator() {
    // A large request through the DirectMapped allocator comes back aligned
    // to the promoted alignment, not merely the requested one.
    let grant = |req: OsMapRequest| -> u64 {
        match req {
            OsMapRequest::AnonNoAccess { .. } => 0x10000000,
            _ => 0,
        }
    };
    let ap = manageable_aperture {
        base: 0x10000000,
        limit: 0x3fffffff,
        align: 0x1000,
        guard_pages: 1,
        is_cpu_accessible: true,
        ops: manageable_aperture_ops_t::DirectMapped,
        tree: rbtree_s::new(),
        user_tree: rbtree_s::new(),
    };
    let r = hsakmt::fmm::mmap_aperture_allocate_aligned(&ap, None, 1 << 20, 0x1000, 0x1000, 9, grant);
    let a = r.unwrap();
    // promoted: 0x1000 doubles to 1 MiB for a 1 MiB request (cap 2 MiB).
    assert_eq!(a % (1 << 20), 0);
}
