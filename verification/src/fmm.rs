//! Aperture allocation strategies and the shared-virtual-memory window
//! discovery.
//!
//! Everything here computes over plain 64-bit addresses. Where the design
//! calls into the OS mapping primitive, the call is taken as a function
//! value handed in by the (unverified) embedding: the logic is proved for
//! every outcome such a call can produce.

#![allow(non_snake_case)]
#![allow(non_camel_case_types)]

use crate::fmm_types::{
    intervals_disjoint, key_overlaps_range, keys_overlap, manageable_aperture_ops_t,
    manageable_aperture_t, range_is_free, vm_object_t,
};
use crate::fmm_types::{manageable_aperture, svm_t};
use crate::globals::HsakmtGlobals;
use crate::hsakmttypes::{spec_align_up, HsaMemFlags, HsakmtStatus, ALIGN_UP, GPU_HUGE_PAGE_SIZE,
    MIN, GFX_VERSION_VEGA10, HSA_ENGINE_ID, HSA_GET_GFX_VERSION_FULL};
use crate::rbtree::{rbtree_init, rbtree_s};
use crate::kfd_ioctl::{
    kfd_process_device_apertures, KFD_IOC_ALLOC_MEM_FLAGS_COHERENT,
    KFD_IOC_ALLOC_MEM_FLAGS_EXT_COHERENT, KFD_IOC_ALLOC_MEM_FLAGS_PUBLIC,
    KFD_IOC_ALLOC_MEM_FLAGS_WRITABLE,
};
use crate::rbtree::{hsakmt_rbtree_delete, hsakmt_rbtree_insert};
use crate::rbtree_amd::{lemma_mask_bits, rbtree_key, rbtree_key_s};
use vstd::prelude::*;

verus! {

/// First address beyond the canonical (47-bit) range.
pub const START_NON_CANONICAL_ADDR: u64 = 0x800000000000;

pub const END_NON_CANONICAL_ADDR: u64 = 0xffff7fffffffffff;

/// Managed SVM reservations stop at 40 bits.
pub const SVM_RESERVATION_LIMIT: u64 = 0xffffffffff;

/// The search must find at least 4 GiB of usable address space.
pub const SVM_MIN_VM_SIZE: u64 = 0x100000000;

/// The huge-page-aligned base the SVM search starts from.
pub open spec fn spec_huge_base(base: int) -> int {
    spec_align_up(base, GPU_HUGE_PAGE_SIZE as int)
}

/// One past the huge-page-rounded-down end of the requested window.
pub open spec fn spec_huge_down(limit: int) -> int {
    ((limit + 1) / (GPU_HUGE_PAGE_SIZE as int)) * (GPU_HUGE_PAGE_SIZE as int)
}

/// An address is canonical when it stays below 2^47.
pub fn IS_CANONICAL_ADDR(gpuvm_limit: u64) -> (r: bool)
    ensures
        r == (gpuvm_limit < START_NON_CANONICAL_ADDR),
{
    gpuvm_limit < START_NON_CANONICAL_ADDR
}

// ---------------------------------------------------------------------------
// Byte-offset arithmetic over addresses.
// ---------------------------------------------------------------------------

pub fn VOID_PTR_ADD(ptr: u64, n: u64) -> (r: u64)
    requires
        ptr + n <= u64::MAX,
    ensures
        r == ptr + n,
{
    ptr + n
}

pub fn VOID_PTR_SUB(ptr: u64, n: u64) -> (r: u64)
    requires
        n <= ptr,
    ensures
        r == ptr - n,
{
    ptr - n
}

pub fn VOID_PTRS_SUB(ptr_1: u64, ptr_2: u64) -> (r: u64)
    requires
        ptr_2 <= ptr_1,
    ensures
        r == ptr_1 - ptr_2,
{
    ptr_1 - ptr_2
}

pub fn aperture_is_valid(app_base: u64, app_limit: u64) -> (r: bool)
    ensures
        r == (app_base != 0 && app_limit != 0 && app_base < app_limit),
{
    app_base != 0 && app_limit != 0 && app_base < app_limit
}

pub fn two_apertures_overlap(start_1: u64, limit_1: u64, start_2: u64, limit_2: u64) -> (r: bool)
    ensures
        r == ((start_1 >= start_2 && start_1 <= limit_2) || (start_2 >= start_1 && start_2
            <= limit_1)),
{
    (start_1 >= start_2 && start_1 <= limit_2) || (start_2 >= start_1 && start_2 <= limit_1)
}

// ---------------------------------------------------------------------------
// The OS mapping primitive, as seen by the verified logic.
// ---------------------------------------------------------------------------

/// One request to the OS mapping primitive. The embedding performs it and
/// answers with a nonzero address on success and 0 on failure (requests whose
/// answer does not matter answer 0).
#[derive(Debug, Clone, Copy, PartialEq, Eq, Structural)]
pub enum OsMapRequest {
    /// Map `size` anonymous bytes anywhere, no access rights.
    AnonNoAccess { size: u64 },
    /// Map `size` anonymous bytes with `addr` as a placement hint (the OS
    /// may place the mapping elsewhere); no access rights.
    AnonNoAccessAt { addr: u64, size: u64 },
    /// Map at exactly `addr`, failing if the range collides with an existing
    /// mapping; no access rights.
    FixedNoReplace { addr: u64, size: u64 },
    /// Re-map `[addr, addr+size)` in place with the caller's access rights.
    FixedAccess { addr: u64, size: u64 },
    /// Unmap `[addr, addr+size)`.
    Unmap { addr: u64, size: u64 },
    /// Reset the advisory locality/cache policy bound to the range.
    PolicyReset { addr: u64, size: u64 },
}

// ---------------------------------------------------------------------------
// Alignment promotion.
// ---------------------------------------------------------------------------

/// The effective alignment of a request: starting from the caller's
/// alignment, double while the size is at least twice the current alignment
/// and the result stays below the ceiling.
pub open spec fn spec_promote_align(align: int, size: int, ceiling: int) -> int
    decreases
            (if align < ceiling {
                ceiling - align
            } else {
                0
            }),
{
    if 1 <= align && align < ceiling && size >= 2 * align {
        spec_promote_align(2 * align, size, ceiling)
    } else {
        align
    }
}

pub proof fn lemma_promote_align_props(align: int, size: int, ceiling: int)
    requires
        align >= 1,
    ensures
        spec_promote_align(align, size, ceiling) % align == 0,
        spec_promote_align(align, size, ceiling) >= align,
        spec_promote_align(align, size, ceiling) == align || spec_promote_align(
            align,
            size,
            ceiling,
        ) < 2 * ceiling,
    decreases
            (if align < ceiling {
                ceiling - align
            } else {
                0
            }),
{
    if 1 <= align && align < ceiling && size >= 2 * align {
        lemma_promote_align_props(2 * align, size, ceiling);
        let r = spec_promote_align(2 * align, size, ceiling);
        assert(r % (2 * align) == 0);
        assert(r % align == 0) by {
            vstd::arithmetic::div_mod::lemma_fundamental_div_mod(r, 2 * align);
            assert(r == (2 * align) * (r / (2 * align)));
            assert(r == align * (2 * (r / (2 * align)))) by (nonlinear_arith)
                requires
                    r == (2 * align) * (r / (2 * align)),
            ;
            vstd::arithmetic::div_mod::lemma_mod_multiples_basic(2 * (r / (2 * align)), align);
            vstd::arithmetic::mul::lemma_mul_is_commutative(2 * (r / (2 * align)), align);
        }
    } else {
        vstd::arithmetic::div_mod::lemma_mod_self_0(align);
    }
}

/// Double the alignment while the request is large enough, capped by the
/// configured ceiling: a request of `size >= 2 * align` is promoted; one of
/// `size < 2 * align` keeps its alignment unchanged.
pub fn mmap_aperture_promote_alignment(align: u64, size: u64, alignment_size: u64) -> (r: u64)
    requires
        1 <= align,
        alignment_size <= 0x4000000000000000,
    ensures
        r == spec_promote_align(align as int, size as int, alignment_size as int),
        r % align == 0,
        r >= align,
        size < 2 * align ==> r == align,
{
    proof {
        lemma_promote_align_props(align as int, size as int, alignment_size as int);
    }
    let mut a = align;
    while a < alignment_size && size >= 2 * a
        invariant
            a >= 1,
            alignment_size <= 0x4000000000000000,
            spec_promote_align(a as int, size as int, alignment_size as int) == spec_promote_align(
                align as int,
                size as int,
                alignment_size as int,
            ),
        decreases
                (if a < alignment_size {
                    alignment_size - a
                } else {
                    0
                }),
    {
        a = 2 * a;
    }
    a
}

// ---------------------------------------------------------------------------
// DirectMapped strategy.
// ---------------------------------------------------------------------------

/// Carve an aligned `size`-byte range out of a fresh anonymous reservation:
/// reserve `size` plus guard margins and alignment slack with no access
/// rights, compute the first aligned address past the lower guard, fail (and
/// fully unwind) if the result leaves `[aper_base, aper_limit]`, trim the
/// unused head and tail, and optionally re-map the surviving range with the
/// requested access.
#[verifier::rlimit(60)]
pub fn hsakmt_mmap_allocate_aligned<F: Copy + Fn(OsMapRequest) -> u64>(
    prot_none: bool,
    size: u64,
    align: u64,
    guard_size: u64,
    aper_base: u64,
    aper_limit: u64,
    page_size: u64,
    f: F,
) -> (r: Option<u64>)
    requires
        forall|req: OsMapRequest| #[trigger] call_requires(f, (req,)),
        1 <= size,
        1 <= page_size,
        page_size <= align,
        size + guard_size * 2 + align <= u64::MAX,
    ensures
        r matches Some(a) ==> a % align == 0 && aper_base <= a && a + size - 1 <= aper_limit,
        r matches Some(a) ==> (exists|m: u64|
            #[trigger] call_ensures(
                f,
                (OsMapRequest::AnonNoAccess { size: (size + guard_size * 2 + (align - page_size)) as u64 },),
                m,
            ) && m != 0 && a == spec_align_up(m as int + guard_size as int, align as int)),
        (forall|req: OsMapRequest, ans: u64| #[trigger] call_ensures(f, (req,), ans) ==> ans == 0)
            ==> r is None,
{
    let aligned_padded_size = size + guard_size * 2 + (align - page_size);

    // Map with no access rights, to claim address space only.
    let addr = f(OsMapRequest::AnonNoAccess { size: aligned_padded_size });
    if addr == 0 {
        return None;
    }
    if addr > u64::MAX - aligned_padded_size {
        // The primitive answered with an address whose mapping cannot fit
        // below the top of the address space; give the claim back.
        f(OsMapRequest::Unmap { addr, size: aligned_padded_size });
        return None;
    }
    let mapping_end = addr + aligned_padded_size;

    // Adjust for alignment and guard margin.
    if addr + guard_size > u64::MAX - (align - 1) {
        f(OsMapRequest::Unmap { addr, size: aligned_padded_size });
        return None;
    }
    let aligned_addr = ALIGN_UP(addr + guard_size, align);
    if aligned_addr > u64::MAX - (size - 1) {
        f(OsMapRequest::Unmap { addr, size: aligned_padded_size });
        return None;
    }
    let p = aligned_addr + (size - 1);

    if aligned_addr < aper_base || p > aper_limit {
        f(OsMapRequest::Unmap { addr, size: aligned_padded_size });
        return None;
    }

    // Unmap the head and tail padding; the unmapped flanks act as guards.
    if aligned_addr > addr {
        f(OsMapRequest::Unmap { addr, size: aligned_addr - addr });
    }
    if p < u64::MAX && mapping_end > p + 1 {
        f(OsMapRequest::Unmap { addr: p + 1, size: mapping_end - (p + 1) });
    }

    if prot_none {
        return Some(aligned_addr);
    }
    // Re-map at the fixed aligned address with the requested protection.
    let remapped = f(OsMapRequest::FixedAccess { addr: aligned_addr, size });
    if remapped == 0 {
        f(OsMapRequest::Unmap { addr: aligned_addr, size });
        return None;
    }
    Some(aligned_addr)
}

/// DirectMapped allocation: no fixed address promotes the alignment and
/// delegates to the aligned reservation above; a caller-fixed address is
/// attempted as a non-replacing mapping at exactly that address.
pub fn mmap_aperture_allocate_aligned<F: Copy + Fn(OsMapRequest) -> u64>(
    aper: &manageable_aperture_t,
    address: Option<u64>,
    size: u64,
    align: u64,
    page_size: u64,
    alignment_order: u32,
    f: F,
) -> (r: Option<u64>)
    requires
        forall|req: OsMapRequest| #[trigger] call_requires(f, (req,)),
        1 <= size,
        1 <= page_size,
        page_size <= align,
        alignment_order < 31,
        page_size <= 0x100000000,
        size + (aper.guard_pages as u64) * page_size * 2 + align <= u64::MAX / 2,
    ensures
        !aper.is_cpu_accessible ==> r is None,
        address matches Some(a) ==> (r is None || r == Some(a)),
        address is None ==> (r matches Some(a) ==> a % align == 0 && aper.base <= a && a + size
            - 1 <= aper.limit),
        address is None ==> (r matches Some(a) ==> (a as int) % spec_promote_align(
            align as int,
            size as int,
            (page_size << (alignment_order as u64)) as int,
        ) == 0),
        (forall|req: OsMapRequest, ans: u64| #[trigger] call_ensures(f, (req,), ans) ==> ans == 0)
            ==> r is None,
{
    if !aper.is_cpu_accessible {
        return None;
    }
    match address {
        Some(a) => {
            let got = f(OsMapRequest::FixedNoReplace { addr: a, size });
            if got == 0 {
                None
            } else {
                Some(a)
            }
        },
        None => {
            // Align big buffers to the next power of two, up to the ceiling
            // page_size * 2^alignment_order (2 MiB at the default order 9).
            let alignment_size = page_size << (alignment_order as u64);
            proof {
                assert(page_size << (alignment_order as u64) <= 0x100000000u64 << 30u64) by (bit_vector)
                    requires
                        page_size <= 0x100000000u64,
                        (alignment_order as u64) < 31u64,
                ;
                assert(0x100000000u64 << 30u64 == 0x4000000000000000u64) by (bit_vector);
            }
            let align2 = mmap_aperture_promote_alignment(align, size, alignment_size);
            let guard_size = (aper.guard_pages as u64) * page_size;
            proof {
                lemma_promote_align_props(align as int, size as int, alignment_size as int);
            }
            if align2 > u64::MAX / 2 || size + guard_size * 2 > u64::MAX - align2 {
                return None;
            }
            let got = hsakmt_mmap_allocate_aligned(
                true,
                size,
                align2,
                guard_size,
                aper.base,
                aper.limit,
                page_size,
                f,
            );
            proof {
                match got {
                    Some(a) => lemma_mod_divides_trans(a as int, align2 as int, align as int),
                    None => {},
                }
            }
            got
        },
    }
}

proof fn lemma_mod_divides_trans(a: int, b: int, c: int)
    requires
        b >= 1,
        c >= 1,
        a % b == 0,
        b % c == 0,
    ensures
        a % c == 0,
{
    vstd::arithmetic::div_mod::lemma_fundamental_div_mod(a, b);
    vstd::arithmetic::div_mod::lemma_fundamental_div_mod(b, c);
    assert(a == b * (a / b));
    assert(b == c * (b / c));
    assert(a == c * ((b / c) * (a / b))) by (nonlinear_arith)
        requires
            a == b * (a / b),
            b == c * (b / c),
    ;
    vstd::arithmetic::div_mod::lemma_mod_multiples_basic((b / c) * (a / b), c);
    vstd::arithmetic::mul::lemma_mul_is_commutative((b / c) * (a / b), c);
}

/// DirectMapped release: reset the locality policy bound to the range, then
/// unmap it. Only CPU-accessible apertures are ever mapped this way.
pub fn mmap_aperture_release<F: Copy + Fn(OsMapRequest) -> u64>(
    aper: &manageable_aperture_t,
    addr: u64,
    size: u64,
    f: F,
) -> (done: bool)
    requires
        forall|req: OsMapRequest| #[trigger] call_requires(f, (req,)),
    ensures
        done == aper.is_cpu_accessible,
{
    if !aper.is_cpu_accessible {
        return false;
    }
    f(OsMapRequest::PolicyReset { addr, size });
    f(OsMapRequest::Unmap { addr, size });
    true
}


// ---------------------------------------------------------------------------
// ReservedRange strategy: sub-allocation from a pre-reserved block, with the
// aperture's tree as the free-extent index.
// ---------------------------------------------------------------------------

/// `x` is a power of two.
pub open spec fn is_pow2_u64(x: u64) -> bool {
    x != 0 && x & ((x - 1) as u64) == 0
}

/// Two distinct multiples of `align` lie at least `align` apart.
proof fn lemma_no_multiple_between(a: int, b: int, align: int)
    requires
        align >= 1,
        a % align == 0,
        b % align == 0,
        a < b,
    ensures
        b - a >= align,
{
    vstd::arithmetic::div_mod::lemma_fundamental_div_mod(a, align);
    vstd::arithmetic::div_mod::lemma_fundamental_div_mod(b, align);
    assert(a == align * (a / align));
    assert(b == align * (b / align));
    assert(b - a == align * ((b / align) - (a / align))) by (nonlinear_arith)
        requires
            a == align * (a / align),
            b == align * (b / align),
    ;
    assert((b / align) - (a / align) >= 1) by (nonlinear_arith)
        requires
            align >= 1,
            b - a == align * ((b / align) - (a / align)),
            b - a > 0,
    ;
    assert(b - a >= align) by (nonlinear_arith)
        requires
            b - a == align * ((b / align) - (a / align)),
            (b / align) - (a / align) >= 1,
            align >= 1,
    ;
}

/// A multiple of a power of two cannot crowd the very top of the address
/// space: the largest one leaves `align - 1` addresses above it.
proof fn lemma_pow2_multiple_bound(a: u64, align: u64)
    requires
        is_pow2_u64(align),
        a % align == 0,
    ensures
        a <= u64::MAX - (align - 1),
{
    let m = (align - 1) as u64;
    assert(a <= 0xffffffffffffffffu64 - m) by (bit_vector)
        requires
            align != 0u64,
            align & m == 0u64,
            m == align - 1,
            a % align == 0u64,
    ;
}

/// What `spec_align_up` computes, available to spec-level reasoning: a
/// multiple of `align`, at or above `x`, below `x + align`.
pub proof fn lemma_spec_align_up_props(x: int, align: int)
    requires
        align >= 1,
        x >= 0,
    ensures
        spec_align_up(x, align) % align == 0,
        x <= spec_align_up(x, align) < x + align,
{
    vstd::arithmetic::div_mod::lemma_fundamental_div_mod(x + align - 1, align);
    vstd::arithmetic::div_mod::lemma_mod_multiples_basic((x + align - 1) / align, align);
    vstd::arithmetic::div_mod::lemma_mod_bound(x + align - 1, align);
    vstd::arithmetic::mul::lemma_mul_is_commutative((x + align - 1) / align, align);
    assert(((x + align - 1) / align) * align == (x + align - 1) - ((x + align - 1) % align));
}

/// Probe whether `[a, a + size - 1]` collides with a stored interval, using
/// one predecessor-side and one successor-side nearest lookup by address.
/// Answers a blocking interval, or nothing when the range is free.
#[verifier::rlimit(100)]
#[verifier::spinoff_prover]
fn reserved_find_blocker(app: &manageable_aperture_t, a: u64, size: u64) -> (r: Option<
    rbtree_key_s,
>)
    requires
        app.inv(),
        1 <= size,
        a + size - 1 <= app.limit,
    ensures
        r is None ==> range_is_free(app.tree@, a as int, size as int),
        r matches Some(k) ==> app.tree@.dom().contains(k) && key_overlaps_range(
            k,
            a as int,
            size as int,
        ),
{
    proof {
        lemma_mask_bits();
    }
    let probe = rbtree_key(a, 0);
    // The nearest stored interval at or below `a`.
    let pred = crate::rbtree_amd::rbtree_lookup_nearest(&app.tree, &probe, 1, 0);
    match pred {
        Some(p) => {
            if p.0.addr == a {
                return Some(p.0);
            }
            proof {
                assert(app.tree@.dom().contains(p.0));
                assert(app.interval_in_bounds(p.0));
            }
            if p.0.addr < a {
                let pend = p.0.addr + ((p.0.size as u64) - 1);
                if pend >= a {
                    return Some(p.0);
                }
            }
        },
        None => {},
    }
    // The nearest stored interval strictly above `a` (no interval sits at
    // `a` itself, or the predecessor probe would have answered it).
    let next = crate::rbtree_amd::rbtree_lookup_nearest(&app.tree, &probe, 1, 1);
    match next {
        Some(q) => {
            proof {
                assert(app.tree@.dom().contains(q.0));
                assert(app.interval_in_bounds(q.0));
            }
            if q.0.addr >= a && q.0.addr <= a + (size - 1) {
                return Some(q.0);
            }
            proof {
                lemma_reserved_probe_free(app.tree@, a, size, pred, next);
            }
            None
        },
        None => {
            proof {
                lemma_reserved_probe_free(app.tree@, a, size, pred, next);
            }
            None
        },
    }
}

/// What the two nearest probes establish when neither answered a blocker:
/// every stored interval below `a` ends before it, and every one above
/// starts past the range, so the range is free.
#[verifier::rlimit(100)]
proof fn lemma_reserved_probe_free(
    m: Map<rbtree_key_s, u64>,
    a: u64,
    size: u64,
    pred: Option<(rbtree_key_s, u64)>,
    next: Option<(rbtree_key_s, u64)>,
)
    requires
        intervals_disjoint(m),
        forall|k: rbtree_key_s| #[trigger] m.dom().contains(k) ==> 1 <= k.size,
        1 <= size,
        // what the predecessor-side probe settled
        pred matches Some(p) ==> m.dom().contains(p.0) && (forall|k: rbtree_key_s| #[trigger]
            m.dom().contains(k) && crate::rbtree_amd::spec_key_compare(
                1,
                crate::rbtree_amd::rbtree_key_s { addr: a, size: 0 },
                k,
            ) > 0 ==> k.addr <= p.0.addr),
        pred is None ==> (forall|k: rbtree_key_s| #[trigger] m.dom().contains(k) ==> k.addr >= a),
        pred matches Some(p) ==> (p.0.addr >= a || p.0.addr + p.0.size - 1 < a),
        (exists|k: rbtree_key_s| #[trigger] m.dom().contains(k) && k.addr == a) ==> (
        pred matches Some(p) && p.0.addr == a),
        pred matches Some(p) ==> p.0.addr < a,
        // what the successor-side probe settled
        next matches Some(q) ==> m.dom().contains(q.0) && q.0.addr > a + size - 1 && (forall|
            k: rbtree_key_s,
        | #[trigger]
            m.dom().contains(k) && crate::rbtree_amd::spec_key_compare(
                1,
                crate::rbtree_amd::rbtree_key_s { addr: a, size: 0 },
                k,
            ) < 0 ==> q.0.addr <= k.addr),
        next is None ==> (forall|k: rbtree_key_s| #[trigger] m.dom().contains(k) ==> k.addr <= a),
    ensures
        range_is_free(m, a as int, size as int),
{
    lemma_mask_bits();
    assert forall|k: rbtree_key_s| #[trigger] m.dom().contains(k) implies !key_overlaps_range(
        k,
        a as int,
        size as int,
    ) by {
        let pk = crate::rbtree_amd::rbtree_key_s { addr: a, size: 0 };
        if k.addr < a {
            assert(crate::rbtree_amd::spec_key_compare(1, pk, k) > 0);
            let p = pred.unwrap();
            assert(k.addr <= p.0.addr);
            if k == p.0 {
                assert(k.addr + k.size - 1 < a);
            } else {
                if k.addr == p.0.addr {
                    assert(keys_overlap(k, p.0));
                } else {
                    assert(k.addr < p.0.addr);
                    assert(!keys_overlap(k, p.0));
                    assert(k.addr + k.size - 1 < p.0.addr);
                }
            }
        } else if k.addr == a {
            assert(pred matches Some(p) && p.0.addr == a);
        } else {
            assert(crate::rbtree_amd::spec_key_compare(1, pk, k) < 0);
            let q = next.unwrap();
            assert(q.0.addr <= k.addr);
            assert(q.0.addr > a + size - 1);
        }
    }
}

/// ReservedRange allocation. With no fixed address, candidate start
/// addresses are scanned upward from the aperture base in `align` steps,
/// skipping past each blocking interval found by the nearest-lookup probes;
/// the first free gap of the requested size is claimed by inserting a
/// tracking node spanning it. A caller-fixed address claims exactly that
/// range or fails. The claimed range never overlaps a live one.
#[verifier::rlimit(100)]
#[verifier::spinoff_prover]
pub fn reserved_aperture_allocate_aligned(
    app: &mut manageable_aperture_t,
    address: Option<u64>,
    size: u64,
    align: u64,
) -> (r: Option<u64>)
    requires
        old(app).inv(),
        1 <= size <= 0x4000000000000000,
        1 <= align,
        old(app).limit < u64::MAX,
    ensures
        final(app).base == old(app).base,
        final(app).limit == old(app).limit,
        final(app).align == old(app).align,
        final(app).guard_pages == old(app).guard_pages,
        final(app).is_cpu_accessible == old(app).is_cpu_accessible,
        final(app).ops == old(app).ops,
        final(app).user_tree@ == old(app).user_tree@,
        final(app).inv(),
        r is None ==> final(app).tree@ == old(app).tree@,
        r matches Some(a) ==> old(app).base <= a && a + size - 1 <= old(app).limit
            && range_is_free(old(app).tree@, a as int, size as int) && final(app).tree@ == old(
            app,
        ).tree@.insert(rbtree_key_s { addr: a, size: size as i64 }, 0),
        address is None ==> (r matches Some(a) ==> a % align == 0),
        address matches Some(want) ==> (r is None || r == Some(want)),
        address matches Some(want) ==> (r == Some(want) <==> (old(app).base <= want && want
            + size - 1 <= old(app).limit && range_is_free(old(app).tree@, want as int, size as int))),
        address is None && is_pow2_u64(align) && r is None ==> (forall|a: u64|
            #[trigger] (a % align) == 0 && old(app).base <= a && a + size - 1 <= old(app).limit
                ==> !range_is_free(old(app).tree@, a as int, size as int)),
{
    match address {
        Some(want) => {
            if want < app.base || want > app.limit || size - 1 > app.limit - want {
                return None;
            }
            match reserved_find_blocker(app, want, size) {
                Some(_) => None,
                None => {
                    let key = rbtree_key(want, size as i64);
                    hsakmt_rbtree_insert(&mut app.tree, key, 0);
                    proof {
                        lemma_reserved_insert_inv(*old(app), *app, key);
                    }
                    Some(want)
                },
            }
        },
        None => {
            if app.base > u64::MAX - (align - 1) {
                proof {
                    if is_pow2_u64(align) {
                        assert forall|a: u64|
                            #[trigger] (a % align) == 0 && app.base <= a && a + size - 1
                                <= app.limit implies !range_is_free(
                            app.tree@,
                            a as int,
                            size as int,
                        ) by {
                            lemma_pow2_multiple_bound(a, align);
                        }
                    }
                }
                return None;
            }
            let mut cand = ALIGN_UP(app.base, align);
            proof {
                assert forall|a: u64|
                    #[trigger] (a % align) == 0 && app.base <= a && a < cand implies !range_is_free(
                    app.tree@,
                    a as int,
                    size as int,
                ) by {
                    lemma_no_multiple_between(a as int, cand as int, align as int);
                }
            }
            loop
                invariant
                    address is None,
                    app == old(app),
                    app.inv(),
                    1 <= size <= 0x4000000000000000,
                    1 <= align,
                    app.limit < u64::MAX,
                    cand % align == 0,
                    cand >= app.base,
                    forall|a: u64|
                        #[trigger] (a % align) == 0 && app.base <= a && a < cand
                            ==> !range_is_free(app.tree@, a as int, size as int),
                decreases
                        (if cand <= app.limit {
                            app.limit + 1 - cand
                        } else {
                            0
                        }),
            {
                if cand > app.limit || size - 1 > app.limit - cand {
                    proof {
                        assert forall|a: u64|
                            #[trigger] (a % align) == 0 && app.base <= a && a + size - 1
                                <= app.limit implies !range_is_free(
                            app.tree@,
                            a as int,
                            size as int,
                        ) by {
                            if a >= cand {
                                assert(a + size - 1 > app.limit);
                            }
                        }
                    }
                    return None;
                }
                match reserved_find_blocker(app, cand, size) {
                    None => {
                        let key = rbtree_key(cand, size as i64);
                        hsakmt_rbtree_insert(&mut app.tree, key, 0);
                        proof {
                            lemma_reserved_insert_inv(*old(app), *app, key);
                        }
                        return Some(cand);
                    },
                    Some(k) => {
                        proof {
                            assert(app.tree@.dom().contains(k));
                            assert(app.interval_in_bounds(k));
                        }
                        let kend = k.addr + (k.size as u64);
                        if kend > u64::MAX - (align - 1) {
                            proof {
                                if is_pow2_u64(align) {
                                    assert forall|a: u64|
                                        #[trigger] (a % align) == 0 && app.base <= a && a + size
                                            - 1 <= app.limit implies !range_is_free(
                                        app.tree@,
                                        a as int,
                                        size as int,
                                    ) by {
                                        if a >= cand {
                                            lemma_pow2_multiple_bound(a, align);
                                            assert(a < kend);
                                            assert(key_overlaps_range(k, a as int, size as int));
                                        }
                                    }
                                }
                            }
                            return None;
                        }
                        let newcand = ALIGN_UP(kend, align);
                        proof {
                            assert(kend > cand);
                            assert forall|a: u64|
                                #[trigger] (a % align) == 0 && app.base <= a && a
                                    < newcand implies !range_is_free(
                                app.tree@,
                                a as int,
                                size as int,
                            ) by {
                                if a >= cand {
                                    if a < kend {
                                        assert(key_overlaps_range(k, a as int, size as int));
                                    } else {
                                        lemma_no_multiple_between(
                                            a as int,
                                            newcand as int,
                                            align as int,
                                        );
                                    }
                                }
                            }
                        }
                        cand = newcand;
                    },
                }
            }
        },
    }
}

/// Inserting a tracking node for an in-bounds, free range preserves the
/// aperture invariant.
proof fn lemma_reserved_insert_inv(
    before: manageable_aperture_t,
    after: manageable_aperture_t,
    key: rbtree_key_s,
)
    requires
        before.inv(),
        after.base == before.base,
        after.limit == before.limit,
        after.user_tree == before.user_tree,
        after.tree.inv(),
        after.tree@ == before.tree@.insert(key, 0),
        before.interval_in_bounds(key),
        range_is_free(before.tree@, key.addr as int, key.size as int),
    ensures
        after.inv(),
{
    assert forall|k: rbtree_key_s| #[trigger] after.tree@.dom().contains(
        k,
    ) implies after.interval_in_bounds(k) by {
        if k != key {
            assert(before.tree@.dom().contains(k));
        }
    }
    assert forall|k1: rbtree_key_s, k2: rbtree_key_s|
        #[trigger] after.tree@.dom().contains(k1) && #[trigger] after.tree@.dom().contains(k2)
            && k1 != k2 implies !keys_overlap(k1, k2) by {
        if k1 == key {
            assert(before.tree@.dom().contains(k2));
            assert(!key_overlaps_range(k2, key.addr as int, key.size as int));
        } else if k2 == key {
            assert(before.tree@.dom().contains(k1));
            assert(!key_overlaps_range(k1, key.addr as int, key.size as int));
        } else {
            assert(before.tree@.dom().contains(k1));
            assert(before.tree@.dom().contains(k2));
        }
    }
}

/// ReservedRange release: remove the tracking node, returning its gap to
/// free space.
pub fn reserved_aperture_release(app: &mut manageable_aperture_t, address: u64, size: u64)
    requires
        old(app).inv(),
        1 <= size <= 0x4000000000000000,
    ensures
        final(app).base == old(app).base,
        final(app).limit == old(app).limit,
        final(app).align == old(app).align,
        final(app).guard_pages == old(app).guard_pages,
        final(app).is_cpu_accessible == old(app).is_cpu_accessible,
        final(app).ops == old(app).ops,
        final(app).user_tree@ == old(app).user_tree@,
        final(app).tree@ == old(app).tree@.remove(
            rbtree_key_s { addr: address, size: size as i64 },
        ),
        final(app).inv(),
{
    let key = rbtree_key(address, size as i64);
    hsakmt_rbtree_delete(&mut app.tree, &key);
    proof {
        assert forall|k: rbtree_key_s| #[trigger] app.tree@.dom().contains(
            k,
        ) implies app.interval_in_bounds(k) by {
            assert(old(app).tree@.dom().contains(k));
        }
        assert forall|k1: rbtree_key_s, k2: rbtree_key_s|
            #[trigger] app.tree@.dom().contains(k1) && #[trigger] app.tree@.dom().contains(k2)
                && k1 != k2 implies !keys_overlap(k1, k2) by {
            assert(old(app).tree@.dom().contains(k1));
            assert(old(app).tree@.dom().contains(k2));
        }
    }
}

/// Releasing an allocation makes that exact range allocatable again: once
/// its key leaves the index, nothing stored overlaps its range.
pub proof fn lemma_release_makes_range_free(m: Map<rbtree_key_s, u64>, key: rbtree_key_s)
    requires
        intervals_disjoint(m),
        m.dom().contains(key),
    ensures
        range_is_free(m.remove(key), key.addr as int, key.size as int),
{
    assert forall|k: rbtree_key_s| #[trigger] m.remove(key).dom().contains(
        k,
    ) implies !key_overlaps_range(k, key.addr as int, key.size as int) by {
        assert(m.dom().contains(k));
        assert(k != key);
        assert(!keys_overlap(k, key));
    }
}


// ---------------------------------------------------------------------------
// Strategy dispatch.
// ---------------------------------------------------------------------------

/// Reserve a `size`-byte range in the aperture honoring `align` (or the
/// aperture's own alignment when `align` is 0), under whichever strategy the
/// aperture was constructed with.
pub fn aperture_allocate_area_aligned<F: Copy + Fn(OsMapRequest) -> u64>(
    app: &mut manageable_aperture_t,
    address: Option<u64>,
    MemorySizeInBytes: u64,
    align: u64,
    page_size: u64,
    alignment_order: u32,
    f: F,
) -> (r: Option<u64>)
    requires
        forall|req: OsMapRequest| #[trigger] call_requires(f, (req,)),
        old(app).inv(),
        !(old(app).ops is NoOps),
        1 <= MemorySizeInBytes <= 0x4000000000000000,
        align == 0 || align >= page_size,
        old(app).align == 0 || old(app).align >= page_size,
        1 <= page_size <= 0x100000000,
        align >= 1 || old(app).align >= 1,
        alignment_order < 31,
        old(app).limit < u64::MAX,
        MemorySizeInBytes + (old(app).guard_pages as u64) * page_size * 2 + align + old(app).align
            <= u64::MAX / 4,
    ensures
        final(app).base == old(app).base,
        final(app).limit == old(app).limit,
        final(app).align == old(app).align,
        final(app).ops == old(app).ops,
        final(app).is_cpu_accessible == old(app).is_cpu_accessible,
        final(app).guard_pages == old(app).guard_pages,
        final(app).user_tree@ == old(app).user_tree@,
        final(app).inv(),
        old(app).ops is DirectMapped ==> final(app).tree@ == old(app).tree@,
        old(app).ops is DirectMapped && address is None ==> (r matches Some(a) ==> a % (if align
            >= 1 {
            align
        } else {
            old(app).align
        }) == 0 && old(app).base <= a && a + MemorySizeInBytes - 1 <= old(app).limit),
        old(app).ops is ReservedRange ==> {
            &&& (r is None ==> final(app).tree@ == old(app).tree@)
            &&& (r matches Some(a) ==> old(app).base <= a && a + MemorySizeInBytes - 1 <= old(
                app,
            ).limit && range_is_free(old(app).tree@, a as int, MemorySizeInBytes as int) && final(app).tree@
                == old(app).tree@.insert(
                rbtree_key_s { addr: a, size: MemorySizeInBytes as i64 },
                0,
            ))
            &&& (address is None ==> (r matches Some(a) ==> a % (if align >= 1 {
                align
            } else {
                old(app).align
            }) == 0))
            &&& (address matches Some(want) ==> (r == Some(want) <==> (old(app).base <= want
                && want + MemorySizeInBytes - 1 <= old(app).limit && range_is_free(
                old(app).tree@,
                want as int,
                MemorySizeInBytes as int,
            ))))
            &&& (address is None && align >= 1 && is_pow2_u64(align) && r is None ==> (forall|
                a: u64,
            |
                #[trigger] (a % align) == 0 && old(app).base <= a && a + MemorySizeInBytes - 1
                    <= old(app).limit ==> !range_is_free(
                    old(app).tree@,
                    a as int,
                    MemorySizeInBytes as int,
                )))
            &&& (address is None && align == 0 && is_pow2_u64(old(app).align) && r is None ==> (
            forall|a: u64|
                #[trigger] (a % old(app).align) == 0 && old(app).base <= a && a
                    + MemorySizeInBytes - 1 <= old(app).limit ==> !range_is_free(
                    old(app).tree@,
                    a as int,
                    MemorySizeInBytes as int,
                )))
        },
{
    let a = if align > 0 {
        align
    } else {
        app.align
    };
    match app.ops {
        manageable_aperture_ops_t::DirectMapped => {
            mmap_aperture_allocate_aligned(
                app,
                address,
                MemorySizeInBytes,
                a,
                page_size,
                alignment_order,
                f,
            )
        },
        manageable_aperture_ops_t::ReservedRange => {
            reserved_aperture_allocate_aligned(app, address, MemorySizeInBytes, a)
        },
        manageable_aperture_ops_t::NoOps => None,
    }
}

/// Reserve a range at the aperture's own alignment.
pub fn aperture_allocate_area<F: Copy + Fn(OsMapRequest) -> u64>(
    app: &mut manageable_aperture_t,
    address: Option<u64>,
    MemorySizeInBytes: u64,
    page_size: u64,
    alignment_order: u32,
    f: F,
) -> (r: Option<u64>)
    requires
        forall|req: OsMapRequest| #[trigger] call_requires(f, (req,)),
        old(app).inv(),
        !(old(app).ops is NoOps),
        1 <= MemorySizeInBytes <= 0x4000000000000000,
        old(app).align >= page_size,
        1 <= page_size <= 0x100000000,
        alignment_order < 31,
        old(app).limit < u64::MAX,
        MemorySizeInBytes + (old(app).guard_pages as u64) * page_size * 2 + old(app).align + old(
            app,
        ).align <= u64::MAX / 4,
    ensures
        final(app).base == old(app).base,
        final(app).limit == old(app).limit,
        final(app).align == old(app).align,
        final(app).ops == old(app).ops,
        final(app).is_cpu_accessible == old(app).is_cpu_accessible,
        final(app).guard_pages == old(app).guard_pages,
        final(app).user_tree@ == old(app).user_tree@,
        final(app).inv(),
        old(app).ops is DirectMapped ==> final(app).tree@ == old(app).tree@,
        old(app).ops is ReservedRange ==> {
            &&& (r is None ==> final(app).tree@ == old(app).tree@)
            &&& (r matches Some(a) ==> old(app).base <= a && a + MemorySizeInBytes - 1 <= old(
                app,
            ).limit && range_is_free(old(app).tree@, a as int, MemorySizeInBytes as int) && final(app).tree@
                == old(app).tree@.insert(
                rbtree_key_s { addr: a, size: MemorySizeInBytes as i64 },
                0,
            ))
            &&& (address matches Some(want) ==> (r == Some(want) <==> (old(app).base <= want
                && want + MemorySizeInBytes - 1 <= old(app).limit && range_is_free(
                old(app).tree@,
                want as int,
                MemorySizeInBytes as int,
            ))))
            &&& (address is None && is_pow2_u64(old(app).align) && r is None ==> (forall|a: u64|
                #[trigger] (a % old(app).align) == 0 && old(app).base <= a && a
                    + MemorySizeInBytes - 1 <= old(app).limit ==> !range_is_free(
                    old(app).tree@,
                    a as int,
                    MemorySizeInBytes as int,
                )))
        },
{
    aperture_allocate_area_aligned(app, address, MemorySizeInBytes, 0, page_size, alignment_order, f)
}

/// Return a range to the aperture, under its strategy: DirectMapped resets
/// the locality policy and unmaps; ReservedRange removes the tracking node.
pub fn aperture_release_area<F: Copy + Fn(OsMapRequest) -> u64>(
    app: &mut manageable_aperture_t,
    address: u64,
    MemorySizeInBytes: u64,
    f: F,
)
    requires
        forall|req: OsMapRequest| #[trigger] call_requires(f, (req,)),
        old(app).inv(),
        1 <= MemorySizeInBytes <= 0x4000000000000000,
    ensures
        final(app).base == old(app).base,
        final(app).limit == old(app).limit,
        final(app).align == old(app).align,
        final(app).ops == old(app).ops,
        final(app).is_cpu_accessible == old(app).is_cpu_accessible,
        final(app).guard_pages == old(app).guard_pages,
        final(app).user_tree@ == old(app).user_tree@,
        final(app).inv(),
        old(app).ops is ReservedRange ==> final(app).tree@ == old(app).tree@.remove(
            rbtree_key_s { addr: address, size: MemorySizeInBytes as i64 },
        ),
        !(old(app).ops is ReservedRange) ==> final(app).tree@ == old(app).tree@,
{
    match app.ops {
        manageable_aperture_ops_t::DirectMapped => {
            mmap_aperture_release(app, address, MemorySizeInBytes, f);
        },
        manageable_aperture_ops_t::ReservedRange => {
            reserved_aperture_release(app, address, MemorySizeInBytes);
        },
        manageable_aperture_ops_t::NoOps => {},
    }
}

// ---------------------------------------------------------------------------
// Allocation bookkeeping.
// ---------------------------------------------------------------------------

/// Translate control-channel allocation flags into the allocation's memory
/// flags: read-only when not writable, coarse-grain when not coherent,
/// extended-coherent and host-access copied through.
pub fn fmm_translate_ioc_to_hsa_flags(ioc_flags: u32) -> (mflags: HsaMemFlags)
    ensures
        mflags.ReadOnly == (ioc_flags & KFD_IOC_ALLOC_MEM_FLAGS_WRITABLE == 0),
        mflags.CoarseGrain == (ioc_flags & KFD_IOC_ALLOC_MEM_FLAGS_COHERENT == 0),
        mflags.ExtendedCoherent == (ioc_flags & KFD_IOC_ALLOC_MEM_FLAGS_EXT_COHERENT != 0),
        mflags.HostAccess == (ioc_flags & KFD_IOC_ALLOC_MEM_FLAGS_PUBLIC != 0),
        !mflags.NonPaged,
{
    let mut mflags = HsaMemFlags::zeroed();
    if ioc_flags & KFD_IOC_ALLOC_MEM_FLAGS_WRITABLE == 0 {
        mflags.ReadOnly = true;
    }
    if ioc_flags & KFD_IOC_ALLOC_MEM_FLAGS_COHERENT == 0 {
        mflags.CoarseGrain = true;
    }
    if ioc_flags & KFD_IOC_ALLOC_MEM_FLAGS_EXT_COHERENT != 0 {
        mflags.ExtendedCoherent = true;
    }
    if ioc_flags & KFD_IOC_ALLOC_MEM_FLAGS_PUBLIC != 0 {
        mflags.HostAccess = true;
    }
    mflags
}

/// The target VA a device allocation request carries: a handle-aperture
/// allocation carries none; on an integrated system a VRAM allocation's
/// address is carried relative to its aperture base; any other request
/// carries the reserved address itself.
pub fn fmm_allocation_request_va(
    is_dgpu: bool,
    is_mem_handle_aperture: bool,
    ioc_flags: u32,
    mem: u64,
    aperture_base: u64,
) -> (r: u64)
    requires
        !is_dgpu && ioc_flags & crate::kfd_ioctl::KFD_IOC_ALLOC_MEM_FLAGS_VRAM != 0
            ==> aperture_base <= mem,
    ensures
        is_mem_handle_aperture ==> r == 0,
        !is_mem_handle_aperture && !is_dgpu && ioc_flags
            & crate::kfd_ioctl::KFD_IOC_ALLOC_MEM_FLAGS_VRAM != 0 ==> r == mem - aperture_base,
        !is_mem_handle_aperture && (is_dgpu || ioc_flags
            & crate::kfd_ioctl::KFD_IOC_ALLOC_MEM_FLAGS_VRAM == 0) ==> r == mem,
{
    let mut va_addr = mem;
    if !is_dgpu && ioc_flags & crate::kfd_ioctl::KFD_IOC_ALLOC_MEM_FLAGS_VRAM != 0 {
        va_addr = mem - aperture_base;
    }
    if is_mem_handle_aperture {
        // Allocating device memory only: the request uses no valid VA.
        va_addr = 0;
    }
    va_addr
}

/// The bookkeeping record for a fresh allocation: not registered, not
/// mapped, no userptr bound.
pub fn vm_create_and_init_object(start: u64, size: u64, handle: u64, mflags: HsaMemFlags) -> (obj:
    vm_object_t)
    ensures
        obj.start == start,
        obj.size == size,
        obj.handle == handle,
        obj.mflags == mflags,
        obj.userptr == 0,
        obj.userptr_size == 0,
        obj.registration_count == 0,
        obj.mapping_count == 0,
        !obj.is_imported_kfd_bo,
{
    let mut object = vm_object_t::default();
    object.start = start;
    object.size = size;
    object.handle = handle;
    object.mflags = mflags;
    object
}

/// Record a fresh allocation in the aperture's index: build its bookkeeping
/// record and bind the device handle to its interval. The interval must be
/// one the aperture's allocator just reserved (already tracked), or a range
/// known free and in bounds.
pub fn aperture_allocate_object(
    app: &mut manageable_aperture_t,
    new_address: u64,
    handle: u64,
    MemorySizeInBytes: u64,
    mflags: HsaMemFlags,
) -> (obj: vm_object_t)
    requires
        old(app).inv(),
        1 <= MemorySizeInBytes <= 0x4000000000000000,
        old(app).tree@.dom().contains(
            rbtree_key_s { addr: new_address, size: MemorySizeInBytes as i64 },
        ) || (old(app).base <= new_address && new_address + MemorySizeInBytes - 1 <= old(app).limit
            && range_is_free(old(app).tree@, new_address as int, MemorySizeInBytes as int)),
    ensures
        final(app).base == old(app).base,
        final(app).limit == old(app).limit,
        final(app).align == old(app).align,
        final(app).ops == old(app).ops,
        final(app).is_cpu_accessible == old(app).is_cpu_accessible,
        final(app).guard_pages == old(app).guard_pages,
        final(app).user_tree@ == old(app).user_tree@,
        final(app).inv(),
        final(app).tree@ == old(app).tree@.insert(
            rbtree_key_s { addr: new_address, size: MemorySizeInBytes as i64 },
            handle,
        ),
        obj.start == new_address,
        obj.size == MemorySizeInBytes,
        obj.handle == handle,
        obj.mflags == mflags,
        obj.userptr == 0,
{
    let new_object = vm_create_and_init_object(new_address, MemorySizeInBytes, handle, mflags);
    let key = rbtree_key(new_address, MemorySizeInBytes as i64);
    hsakmt_rbtree_insert(&mut app.tree, key, handle);
    proof {
        let ghost before = *old(app);
        if before.tree@.dom().contains(key) {
            assert(before.interval_in_bounds(key));
            assert forall|k: rbtree_key_s| #[trigger] app.tree@.dom().contains(
                k,
            ) implies app.interval_in_bounds(k) by {
                assert(before.tree@.dom().contains(k));
            }
            assert forall|k1: rbtree_key_s, k2: rbtree_key_s|
                #[trigger] app.tree@.dom().contains(k1) && #[trigger] app.tree@.dom().contains(k2)
                    && k1 != k2 implies !keys_overlap(k1, k2) by {
                assert(before.tree@.dom().contains(k1));
                assert(before.tree@.dom().contains(k2));
            }
        } else {
            lemma_reserved_insert_inv_data(before, *app, key, handle);
        }
    }
    new_object
}

/// Like `lemma_reserved_insert_inv`, for an arbitrary bound handle.
proof fn lemma_reserved_insert_inv_data(
    before: manageable_aperture_t,
    after: manageable_aperture_t,
    key: rbtree_key_s,
    handle: u64,
)
    requires
        before.inv(),
        after.base == before.base,
        after.limit == before.limit,
        after.user_tree == before.user_tree,
        after.tree.inv(),
        after.tree@ == before.tree@.insert(key, handle),
        before.interval_in_bounds(key),
        range_is_free(before.tree@, key.addr as int, key.size as int),
    ensures
        after.inv(),
{
    assert forall|k: rbtree_key_s| #[trigger] after.tree@.dom().contains(
        k,
    ) implies after.interval_in_bounds(k) by {
        if k != key {
            assert(before.tree@.dom().contains(k));
        }
    }
    assert forall|k1: rbtree_key_s, k2: rbtree_key_s|
        #[trigger] after.tree@.dom().contains(k1) && #[trigger] after.tree@.dom().contains(k2)
            && k1 != k2 implies !keys_overlap(k1, k2) by {
        if k1 == key {
            assert(before.tree@.dom().contains(k2));
            assert(!key_overlaps_range(k2, key.addr as int, key.size as int));
        } else if k2 == key {
            assert(before.tree@.dom().contains(k1));
            assert(!key_overlaps_range(k1, key.addr as int, key.size as int));
        } else {
            assert(before.tree@.dom().contains(k1));
            assert(before.tree@.dom().contains(k2));
        }
    }
}

/// Drop an allocation's bookkeeping: its interval leaves the device index,
/// and a userptr-backed allocation also leaves the userptr index.
pub fn vm_remove_object(app: &mut manageable_aperture_t, object: &vm_object_t)
    requires
        old(app).inv(),
        1 <= object.size <= 0x4000000000000000,
        object.userptr_size <= 0x4000000000000000,
    ensures
        final(app).base == old(app).base,
        final(app).limit == old(app).limit,
        final(app).align == old(app).align,
        final(app).ops == old(app).ops,
        final(app).is_cpu_accessible == old(app).is_cpu_accessible,
        final(app).guard_pages == old(app).guard_pages,
        final(app).inv(),
        final(app).tree@ == old(app).tree@.remove(
            rbtree_key_s { addr: object.start, size: object.size as i64 },
        ),
        object.userptr != 0 ==> final(app).user_tree@ == old(app).user_tree@.remove(
            rbtree_key_s { addr: object.userptr, size: object.userptr_size as i64 },
        ),
        object.userptr == 0 ==> final(app).user_tree@ == old(app).user_tree@,
{
    let key = rbtree_key(object.start, object.size as i64);
    hsakmt_rbtree_delete(&mut app.tree, &key);
    if object.userptr != 0 {
        let ukey = rbtree_key(object.userptr, object.userptr_size as i64);
        hsakmt_rbtree_delete(&mut app.user_tree, &ukey);
    }
    proof {
        assert forall|k: rbtree_key_s| #[trigger] app.tree@.dom().contains(
            k,
        ) implies app.interval_in_bounds(k) by {
            assert(old(app).tree@.dom().contains(k));
        }
        assert forall|k1: rbtree_key_s, k2: rbtree_key_s|
            #[trigger] app.tree@.dom().contains(k1) && #[trigger] app.tree@.dom().contains(k2)
                && k1 != k2 implies !keys_overlap(k1, k2) by {
            assert(old(app).tree@.dom().contains(k1));
            assert(old(app).tree@.dom().contains(k2));
        }
    }
}


// ---------------------------------------------------------------------------
// Address-space reservation probing.
// ---------------------------------------------------------------------------

/// Ask the OS to reserve `len` no-access bytes near `addr`; 0 stands for
/// failure, and the reservation may land anywhere the OS chooses.
pub fn reserve_address<F: Copy + Fn(OsMapRequest) -> u64>(addr: u64, len: u64, f: F) -> (r: u64)
    requires
        forall|req: OsMapRequest| #[trigger] call_requires(f, (req,)),
    ensures
        len == 0 ==> r == 0,
        (forall|req: OsMapRequest, ans: u64| #[trigger] call_ensures(f, (req,), ans) ==> ans == 0)
            ==> r == 0,
{
    if len == 0 {
        return 0;
    }
    f(OsMapRequest::AnonNoAccessAt { addr, size: len })
}

/// Empty an aperture's indexes, keeping its bounds and configuration.
fn reset_aperture_trees(app: &mut manageable_aperture_t)
    ensures
        final(app).base == old(app).base,
        final(app).limit == old(app).limit,
        final(app).align == old(app).align,
        final(app).guard_pages == old(app).guard_pages,
        final(app).is_cpu_accessible == old(app).is_cpu_accessible,
        final(app).ops == old(app).ops,
        final(app).tree@ == Map::<rbtree_key_s, u64>::empty(),
        final(app).user_tree@ == Map::<rbtree_key_s, u64>::empty(),
        final(app).inv(),
{
    rbtree_init(&mut app.tree);
    rbtree_init(&mut app.user_tree);
}

/// The non-index fields of one GPU's record are kept and all four of its
/// aperture indexes are emptied.
pub open spec fn gpu_trees_reset(a: crate::fmm_types::gpu_mem_t, b: crate::fmm_types::gpu_mem_t) -> bool {
    &&& a.scratch_physical.tree@ == Map::<rbtree_key_s, u64>::empty()
    &&& a.scratch_physical.user_tree@ == Map::<rbtree_key_s, u64>::empty()
    &&& a.gpuvm_aperture.tree@ == Map::<rbtree_key_s, u64>::empty()
    &&& a.gpuvm_aperture.user_tree@ == Map::<rbtree_key_s, u64>::empty()
    &&& a.scratch_physical.inv()
    &&& a.gpuvm_aperture.inv()
    &&& a.gpu_id == b.gpu_id
    &&& a.device_id == b.device_id
    &&& a.node_id == b.node_id
    &&& a.local_mem_size == b.local_mem_size
    &&& a.EngineId == b.EngineId
    &&& a.lds_aperture == b.lds_aperture
    &&& a.scratch_aperture == b.scratch_aperture
    &&& a.mmio_aperture == b.mmio_aperture
    &&& a.drm_render_fd == b.drm_render_fd
    &&& a.usable_peer_id_num == b.usable_peer_id_num
    &&& a.usable_peer_id_array@ == b.usable_peer_id_array@
    &&& a.drm_render_minor == b.drm_render_minor
    &&& a.scratch_physical.base == b.scratch_physical.base
    &&& a.scratch_physical.limit == b.scratch_physical.limit
    &&& a.scratch_physical.align == b.scratch_physical.align
    &&& a.gpuvm_aperture.base == b.gpuvm_aperture.base
    &&& a.gpuvm_aperture.limit == b.gpuvm_aperture.limit
    &&& a.gpuvm_aperture.align == b.gpuvm_aperture.align
    &&& a.gpuvm_aperture.guard_pages == b.gpuvm_aperture.guard_pages
    &&& a.gpuvm_aperture.ops == b.gpuvm_aperture.ops
}

/// The handle aperture candidate `[b, l]` avoids all three of one GPU's
/// aperture ranges.
pub open spec fn handle_hole_ok(g: crate::fmm_types::gpu_mem_t, b: u64, l: u64) -> bool {
    &&& !((g.lds_aperture.base >= b && g.lds_aperture.base <= l) || (b >= g.lds_aperture.base && b
        <= g.lds_aperture.limit))
    &&& !((g.scratch_aperture.base >= b && g.scratch_aperture.base <= l) || (b
        >= g.scratch_aperture.base && b <= g.scratch_aperture.limit))
    &&& !((g.gpuvm_aperture.base >= b && g.gpuvm_aperture.base <= l) || (b
        >= g.gpuvm_aperture.base && b <= g.gpuvm_aperture.limit))
}

impl HsakmtGlobals {
    /// The virtual-memory alignment a device requires; every in-scope device
    /// is served by the process page size.
    pub fn get_vm_alignment(&self, device_id: u32) -> (r: u32)
        requires
            0 <= self.hsakmt_page_size <= 0x40000000,
        ensures
            r == self.hsakmt_page_size,
    {
        let page_size = self.PAGE_SIZE();
        if device_id >= 0x6920 && device_id <= 0x6939 {
            // Tonga-family devices keep the default page alignment here.
        } else if device_id >= 0x9870 && device_id <= 0x9877 {
            // Carrizo-family devices keep the default page alignment here.
        }
        page_size as u32
    }

    /// The position of a GPU record by its id, or -1 when none matches.
    pub fn gpu_mem_find_by_gpu_id(&self, gpu_id: u32) -> (r: i32)
        requires
            self.fmm.gpu_mem@.len() < 0x10000,
        ensures
            r >= 0 ==> 0 <= r < self.fmm.gpu_mem@.len() && self.fmm.gpu_mem@[r as int].gpu_id
                == gpu_id,
            r < 0 ==> r == -1 && (forall|i: int|
                0 <= i < self.fmm.gpu_mem@.len() ==> #[trigger] self.fmm.gpu_mem@[i].gpu_id
                    != gpu_id),
    {
        let mut i: usize = 0;
        while i < self.fmm.gpu_mem.len()
            invariant
                i <= self.fmm.gpu_mem@.len(),
                self.fmm.gpu_mem@.len() < 0x10000,
                forall|j: int| 0 <= j < i ==> #[trigger] self.fmm.gpu_mem@[j].gpu_id != gpu_id,
            decreases self.fmm.gpu_mem@.len() - i,
        {
            if self.fmm.gpu_mem[i].gpu_id == gpu_id {
                return i as i32;
            }
            i = i + 1;
        }
        -1
    }

    /// A node needs the shared SVM apertures when the process drives a dGPU,
    /// or the engine is at or past the first canonical-addressing core.
    pub fn hsakmt_topology_is_svm_needed(&self, EngineId: &HSA_ENGINE_ID) -> (r: bool)
        requires
            EngineId.Major <= 0xff,
            EngineId.Minor <= 0xff,
            EngineId.Stepping <= 0xff,
        ensures
            r == (self.hsakmt_is_dgpu || EngineId.Major * 10000 + EngineId.Minor * 100
                + EngineId.Stepping >= GFX_VERSION_VEGA10),
    {
        if self.hsakmt_is_dgpu {
            return true;
        }
        if HSA_GET_GFX_VERSION_FULL(EngineId) >= GFX_VERSION_VEGA10 {
            return true;
        }
        false
    }

    /// Reset every aperture index owned by the process: the two SVM
    /// apertures, the CPU and handle apertures, and each GPU's private ones.
    pub fn fmm_init_rbtree(&mut self)
        ensures
            final(self).fmm.svm.dgpu_aperture.tree@ == Map::<rbtree_key_s, u64>::empty(),
            final(self).fmm.svm.dgpu_aperture.user_tree@ == Map::<rbtree_key_s, u64>::empty(),
            final(self).fmm.svm.dgpu_alt_aperture.tree@ == Map::<rbtree_key_s, u64>::empty(),
            final(self).fmm.svm.dgpu_alt_aperture.user_tree@ == Map::<rbtree_key_s, u64>::empty(),
            final(self).fmm.cpuvm_aperture.tree@ == Map::<rbtree_key_s, u64>::empty(),
            final(self).fmm.mem_handle_aperture.tree@ == Map::<rbtree_key_s, u64>::empty(),
            final(self).fmm.gpu_mem@.len() == old(self).fmm.gpu_mem@.len(),
            forall|i: int|
                0 <= i < final(self).fmm.gpu_mem@.len() ==> gpu_trees_reset(
                    #[trigger] final(self).fmm.gpu_mem@[i],
                    old(self).fmm.gpu_mem@[i],
                ),
            final(self).fmm.svm.dgpu_aperture.inv(),
            final(self).fmm.svm.dgpu_alt_aperture.inv(),
    {
        reset_aperture_trees(&mut self.fmm.svm.dgpu_aperture);
        reset_aperture_trees(&mut self.fmm.svm.dgpu_alt_aperture);
        reset_aperture_trees(&mut self.fmm.cpuvm_aperture);
        reset_aperture_trees(&mut self.fmm.mem_handle_aperture);
        let mut v: Vec<crate::fmm_types::gpu_mem_t> = Vec::new();
        std::mem::swap(&mut v, &mut self.fmm.gpu_mem);
        let ghost orig = v@;
        let n = v.len();
        let mut k: usize = 0;
        while k < n
            invariant
                n == orig.len(),
                k <= n,
                v@.len() == n,
                forall|j: int| 0 <= j < n - k ==> v@[j] == orig[j + k],
                forall|j: int|
                    n - k <= j < n ==> gpu_trees_reset(#[trigger] v@[j], orig[j - (n - k)]),
            decreases n - k,
        {
            let mut gm = v.remove(0);
            reset_aperture_trees(&mut gm.scratch_physical);
            reset_aperture_trees(&mut gm.gpuvm_aperture);
            v.push(gm);
            k = k + 1;
        }
        self.fmm.gpu_mem = v;
    }

    /// Scan the non-canonical range in 2^47 steps for a hole that collides
    /// with no GPU's simple or private apertures, and settle the handle
    /// aperture there; on failure the handle aperture is marked invalid.
    pub fn init_mem_handle_aperture(&mut self, align: u32, guard_pages: u32) -> (found: bool)
        requires
            old(self).fmm.mem_handle_aperture.inv(),
            old(self).fmm.mem_handle_aperture.base >= START_NON_CANONICAL_ADDR,
            old(self).fmm.mem_handle_aperture.tree@ == Map::<rbtree_key_s, u64>::empty(),
            old(self).fmm.mem_handle_aperture.user_tree@ == Map::<rbtree_key_s, u64>::empty(),
            old(self).fmm.gpu_mem@.len() < 0x10000,
        ensures
            !found ==> final(self).fmm.mem_handle_aperture.base == 0 && final(self).fmm.mem_handle_aperture.limit == 0,
            found ==> final(self).fmm.mem_handle_aperture.base >= START_NON_CANONICAL_ADDR,
            found ==> final(self).fmm.mem_handle_aperture.inv() && (forall|i: int|
                0 <= i < final(self).fmm.gpu_mem@.len() ==> handle_hole_ok(
                    #[trigger] final(self).fmm.gpu_mem@[i],
                    final(self).fmm.mem_handle_aperture.base,
                    final(self).fmm.mem_handle_aperture.limit,
                )),
            final(self).fmm.gpu_mem@ == old(self).fmm.gpu_mem@,
    {
        self.fmm.mem_handle_aperture.align = align as u64;
        self.fmm.mem_handle_aperture.guard_pages = guard_pages;
        self.fmm.mem_handle_aperture.is_cpu_accessible = false;
        self.fmm.mem_handle_aperture.ops = manageable_aperture_ops_t::ReservedRange;
        loop
            invariant
                self.fmm.mem_handle_aperture.inv(),
                self.fmm.mem_handle_aperture.base >= START_NON_CANONICAL_ADDR,
                self.fmm.mem_handle_aperture.tree@ == Map::<rbtree_key_s, u64>::empty(),
                self.fmm.mem_handle_aperture.user_tree@ == Map::<rbtree_key_s, u64>::empty(),
                self.fmm.gpu_mem@ == old(self).fmm.gpu_mem@,
                self.fmm.gpu_mem@.len() < 0x10000,
            decreases
                    (if self.fmm.mem_handle_aperture.base <= END_NON_CANONICAL_ADDR {
                        END_NON_CANONICAL_ADDR - self.fmm.mem_handle_aperture.base
                    } else {
                        0
                    }),
        {
            if !(self.fmm.mem_handle_aperture.base < END_NON_CANONICAL_ADDR - 1) {
                break;
            }
            let mut collides = false;
            let mut i: usize = 0;
            let b = self.fmm.mem_handle_aperture.base;
            let l = self.fmm.mem_handle_aperture.limit;
            while i < self.fmm.gpu_mem.len()
                invariant
                    i <= self.fmm.gpu_mem@.len(),
                    self.fmm.gpu_mem@.len() < 0x10000,
                    b == self.fmm.mem_handle_aperture.base,
                    l == self.fmm.mem_handle_aperture.limit,
                    !collides ==> (forall|j: int|
                        0 <= j < i ==> handle_hole_ok(#[trigger] self.fmm.gpu_mem@[j], b, l)),
                decreases self.fmm.gpu_mem@.len() - i,
            {
                let hit_lds = two_apertures_overlap(
                    self.fmm.gpu_mem[i].lds_aperture.base,
                    self.fmm.gpu_mem[i].lds_aperture.limit,
                    b,
                    l,
                );
                let hit_scratch = two_apertures_overlap(
                    self.fmm.gpu_mem[i].scratch_aperture.base,
                    self.fmm.gpu_mem[i].scratch_aperture.limit,
                    b,
                    l,
                );
                let hit_gpuvm = two_apertures_overlap(
                    self.fmm.gpu_mem[i].gpuvm_aperture.base,
                    self.fmm.gpu_mem[i].gpuvm_aperture.limit,
                    b,
                    l,
                );
                if hit_lds || hit_scratch || hit_gpuvm {
                    collides = true;
                    break;
                } else {
                    i = i + 1;
                }
            }
            if !collides && i == self.fmm.gpu_mem.len() {
                return true;
            }
            // Try the next hole, one canonical-range stride up.
            if self.fmm.mem_handle_aperture.base > u64::MAX - START_NON_CANONICAL_ADDR {
                break;
            }
            let nb = self.fmm.mem_handle_aperture.base + START_NON_CANONICAL_ADDR;
            if nb > u64::MAX - START_NON_CANONICAL_ADDR {
                break;
            }
            self.fmm.mem_handle_aperture.base = nb;
            self.fmm.mem_handle_aperture.limit = nb + START_NON_CANONICAL_ADDR;
            proof {
                assert(self.fmm.mem_handle_aperture.inv());
            }
        }
        // No hole fits: mark the aperture invalid.
        self.fmm.mem_handle_aperture.base = 0;
        self.fmm.mem_handle_aperture.limit = 0;
        false
    }
}


impl HsakmtGlobals {
    /// The unreserved SVM path: set up one DirectMapped aperture over the
    /// window and probe it by allocating (and at once releasing) one page.
    /// On success both SVM roles alias this aperture; on failure the state
    /// is left untouched so the reserved path can take over.
    pub fn init_mmap_apertures<F: Copy + Fn(OsMapRequest) -> u64>(
        &mut self,
        base: u64,
        limit: u64,
        align: u32,
        guard_pages: u32,
        f: F,
    ) -> (ret: HsakmtStatus)
        requires
            forall|req: OsMapRequest| #[trigger] call_requires(f, (req,)),
            1 <= old(self).hsakmt_page_size,
            (guard_pages as u64) * (old(self).hsakmt_page_size as u64) <= 0x1000000000000,
            old(self).fmm.svm.alignment_order < 31,
            limit < u64::MAX,
        ensures
            ret != HsakmtStatus::HSAKMT_STATUS_SUCCESS ==> *final(self) == *old(self),
            ret == HsakmtStatus::HSAKMT_STATUS_SUCCESS || ret
                == HsakmtStatus::HSAKMT_STATUS_ERROR,
            (align as u64) > old(self).hsakmt_page_size as u64 ==> ret
                == HsakmtStatus::HSAKMT_STATUS_ERROR,
            (forall|req: OsMapRequest, ans: u64| #[trigger]
                call_ensures(f, (req,), ans) ==> ans == 0) ==> ret
                == HsakmtStatus::HSAKMT_STATUS_ERROR,
            ret == HsakmtStatus::HSAKMT_STATUS_SUCCESS ==> {
                &&& final(self).fmm.svm.aliased
                &&& final(self).fmm.svm.dgpu_aperture.base == base
                &&& final(self).fmm.svm.dgpu_aperture.limit == limit
                &&& final(self).fmm.svm.dgpu_aperture.align == align as u64
                &&& final(self).fmm.svm.dgpu_aperture.guard_pages == guard_pages
                &&& final(self).fmm.svm.dgpu_aperture.is_cpu_accessible
                &&& final(self).fmm.svm.dgpu_aperture.ops
                    == manageable_aperture_ops_t::DirectMapped
                &&& final(self).fmm.svm.dgpu_aperture.inv()
                &&& final(self).fmm.svm.dgpu_alt_aperture.inv()
                &&& final(self).fmm.svm.dgpu_alt_aperture.base == 0
                &&& final(self).fmm.svm.dgpu_alt_aperture.limit == 0
                &&& final(self).fmm.dgpu_shared_aperture_limit == old(
                    self,
                ).fmm.dgpu_shared_aperture_limit
            },
    {
        let page_size = self.hsakmt_page_size as u64;
        if (align as u64) > page_size {
            // Alignment constraints beyond a page mean old pre-canonical
            // hardware: fall back to the reserved path.
            return HsakmtStatus::HSAKMT_STATUS_ERROR;
        }
        let ap = manageable_aperture {
            base,
            limit,
            align: align as u64,
            guard_pages,
            is_cpu_accessible: true,
            ops: manageable_aperture_ops_t::DirectMapped,
            tree: rbtree_s::new(),
            user_tree: rbtree_s::new(),
        };
        // Try to allocate one page; failure means falling back to a
        // reserved address range.
        let got = mmap_aperture_allocate_aligned(
            &ap,
            None,
            page_size,
            page_size,
            page_size,
            self.fmm.svm.alignment_order,
            f,
        );
        match got {
            Some(addr) => {
                mmap_aperture_release(&ap, addr, page_size, f);
                self.fmm.svm.dgpu_aperture = ap;
                self.fmm.svm.dgpu_alt_aperture = svm_t::default().dgpu_alt_aperture;
                self.fmm.svm.aliased = true;
                HsakmtStatus::HSAKMT_STATUS_SUCCESS
            },
            None => HsakmtStatus::HSAKMT_STATUS_ERROR,
        }
    }

    /// Establish the process-wide SVM window(s). With a canonical limit and
    /// no override, the unreserved path is tried first. Otherwise a
    /// geometric-backoff search reserves a dedicated block: the requested
    /// length is halved after every failed scan down to the 4 GiB floor,
    /// candidate starts advance in huge-page strides, and the first
    /// reservation whose upper half stays GPU-addressable is accepted, then
    /// trimmed to the limit and split into a coherent first quarter (64 KiB
    /// aligned) and the non-coherent remainder.
    ///
    /// The accepted window never ends past the aligned request limit and is
    /// never smaller than the 4 GiB floor; a failed search leaves every
    /// aperture exactly as it was.
    #[verifier::rlimit(100)]
    #[verifier::spinoff_prover]
    pub fn init_svm_apertures<F: Copy + Fn(OsMapRequest) -> u64>(
        &mut self,
        base: u64,
        limit: u64,
        align: u32,
        guard_pages: u32,
        f: F,
    ) -> (ret: HsakmtStatus)
        requires
            forall|req: OsMapRequest| #[trigger] call_requires(f, (req,)),
            1 <= old(self).hsakmt_page_size,
            (guard_pages as u64) * (old(self).hsakmt_page_size as u64) <= 0x1000000000000,
            old(self).fmm.svm.alignment_order < 31,
            limit < u64::MAX,
        ensures
            ret == HsakmtStatus::HSAKMT_STATUS_ERROR ==> *final(self) == *old(self),
            ret == HsakmtStatus::HSAKMT_STATUS_SUCCESS || ret
                == HsakmtStatus::HSAKMT_STATUS_ERROR,
            // an aperture inherited from a parent process stays in use
            old(self).fmm.dgpu_shared_aperture_limit != 0 ==> ret
                == HsakmtStatus::HSAKMT_STATUS_SUCCESS && *final(self) == *old(self),
            // the library's own pre-probe errors
            old(self).fmm.dgpu_shared_aperture_limit == 0 && base > u64::MAX - (
            GPU_HUGE_PAGE_SIZE - 1) ==> ret == HsakmtStatus::HSAKMT_STATUS_ERROR,
            old(self).fmm.dgpu_shared_aperture_limit == 0 && base <= u64::MAX - (
            GPU_HUGE_PAGE_SIZE - 1) && spec_huge_down(limit as int) == 0 ==> ret
                == HsakmtStatus::HSAKMT_STATUS_ERROR,
            old(self).fmm.dgpu_shared_aperture_limit == 0 && base <= u64::MAX - (
            GPU_HUGE_PAGE_SIZE - 1) && spec_huge_down(limit as int) != 0 && (spec_huge_down(
                limit as int,
            ) - 1 < START_NON_CANONICAL_ADDR - 1 || old(self).fmm.svm.reserve_svm)
                && spec_huge_base(base as int) >= (if spec_huge_down(limit as int) - 1
                > SVM_RESERVATION_LIMIT {
                SVM_RESERVATION_LIMIT as int
            } else {
                spec_huge_down(limit as int) - 1
            }) ==> ret == HsakmtStatus::HSAKMT_STATUS_ERROR,
            // an OS that grants nothing forces failure
            old(self).fmm.dgpu_shared_aperture_limit == 0 && (forall|req: OsMapRequest, ans: u64|
                #[trigger] call_ensures(f, (req,), ans) ==> ans == 0) ==> ret
                == HsakmtStatus::HSAKMT_STATUS_ERROR,
            // the unreserved path, when taken, aliases both roles to one
            // DirectMapped aperture over the huge-page-trimmed window
            ret == HsakmtStatus::HSAKMT_STATUS_SUCCESS && old(self).fmm.dgpu_shared_aperture_limit
                == 0 && final(self).fmm.svm.aliased ==> {
                &&& final(self).fmm.svm.dgpu_aperture.base == spec_huge_base(base as int)
                &&& final(self).fmm.svm.dgpu_aperture.limit == spec_huge_down(limit as int) - 1
                &&& final(self).fmm.svm.dgpu_aperture.is_cpu_accessible
                &&& final(self).fmm.svm.dgpu_aperture.ops
                    == manageable_aperture_ops_t::DirectMapped
                &&& final(self).fmm.svm.dgpu_alt_aperture.base == 0
                &&& final(self).fmm.svm.dgpu_alt_aperture.limit == 0
                &&& final(self).fmm.dgpu_shared_aperture_limit == 0
            },
            ret == HsakmtStatus::HSAKMT_STATUS_SUCCESS && old(self).fmm.dgpu_shared_aperture_limit
                == 0 && !final(self).fmm.svm.aliased ==> {
                &&& final(self).fmm.dgpu_shared_aperture_limit <= limit
                &&& final(self).fmm.dgpu_shared_aperture_limit <= SVM_RESERVATION_LIMIT
                &&& final(self).fmm.svm.dgpu_alt_aperture.base == spec_align_up(
                    final(self).fmm.dgpu_shared_aperture_base as int,
                    0x10000,
                )
                &&& final(self).fmm.svm.dgpu_alt_aperture.limit + 1 - final(self).fmm.svm.dgpu_alt_aperture.base == spec_align_up(
                    ((final(self).fmm.dgpu_shared_aperture_limit - final(self).fmm.dgpu_shared_aperture_base + 1) as int) / 4,
                    0x10000,
                )
                &&& final(self).fmm.dgpu_shared_aperture_limit - final(self).fmm.dgpu_shared_aperture_base + 1 >= SVM_MIN_VM_SIZE
                &&& final(self).fmm.dgpu_shared_aperture_base <= final(self).fmm.svm.dgpu_alt_aperture.base
                &&& final(self).fmm.svm.dgpu_alt_aperture.base <= final(self).fmm.svm.dgpu_alt_aperture.limit
                &&& final(self).fmm.svm.dgpu_aperture.base == final(self).fmm.svm.dgpu_alt_aperture.limit + 1
                &&& final(self).fmm.svm.dgpu_aperture.limit == final(self).fmm.dgpu_shared_aperture_limit
                &&& final(self).fmm.svm.dgpu_aperture.inv()
                &&& final(self).fmm.svm.dgpu_alt_aperture.inv()
                &&& final(self).fmm.svm.dgpu_aperture.ops
                    == manageable_aperture_ops_t::ReservedRange
                &&& final(self).fmm.svm.dgpu_alt_aperture.ops
                    == manageable_aperture_ops_t::ReservedRange
                &&& final(self).fmm.svm.dgpu_aperture.tree@ == Map::<rbtree_key_s, u64>::empty()
                &&& final(self).fmm.svm.dgpu_alt_aperture.tree@ == Map::<
                    rbtree_key_s,
                    u64,
                >::empty()
            },
    {
        // An SVM aperture inherited from a parent process stays in use.
        if self.fmm.dgpu_shared_aperture_limit != 0 {
            return HsakmtStatus::HSAKMT_STATUS_SUCCESS;
        }
        // Align the base up and the limit down to huge-page boundaries.
        if base > u64::MAX - (GPU_HUGE_PAGE_SIZE - 1) {
            return HsakmtStatus::HSAKMT_STATUS_ERROR;
        }
        let base2 = ALIGN_UP(base, GPU_HUGE_PAGE_SIZE);
        let down = ((limit + 1) / GPU_HUGE_PAGE_SIZE) * GPU_HUGE_PAGE_SIZE;
        if down == 0 {
            return HsakmtStatus::HSAKMT_STATUS_ERROR;
        }
        let mut limit2 = down - 1;
        proof {
            let li = limit as int;
            let hp = GPU_HUGE_PAGE_SIZE as int;
            vstd::arithmetic::div_mod::lemma_fundamental_div_mod(li + 1, hp);
            vstd::arithmetic::div_mod::lemma_mod_bound(li + 1, hp);
            vstd::arithmetic::mul::lemma_mul_is_commutative((li + 1) / hp, hp);
            assert(down <= limit + 1);
        }
        // A 47-bit limit means canonical-addressing GPUs only: try the
        // unreserved path unless a dedicated reservation is forced.
        if limit2 >= START_NON_CANONICAL_ADDR - 1 && !self.fmm.svm.reserve_svm {
            let status = self.init_mmap_apertures(base2, limit2, align, guard_pages, f);
            if status == HsakmtStatus::HSAKMT_STATUS_SUCCESS {
                return status;
            }
            // fall through: fall back to a reserved address space
        }
        if limit2 > SVM_RESERVATION_LIMIT {
            limit2 = SVM_RESERVATION_LIMIT;
        }
        if base2 >= limit2 {
            return HsakmtStatus::HSAKMT_STATUS_ERROR;
        }
        let psz = self.hsakmt_page_size as u64;
        let mut len = limit2 - base2 + 1;
        let mut ret_addr: u64 = 0;
        let mut map_size: u64 = 0;
        loop
            invariant_except_break
                ret_addr == 0,
            invariant
                forall|req: OsMapRequest| #[trigger] call_requires(f, (req,)),
                *self == *old(self),
                old(self).fmm.dgpu_shared_aperture_limit == 0,
                1 <= psz,
                base2 < limit2,
                limit2 <= SVM_RESERVATION_LIMIT,
                limit2 <= limit,
                len <= limit2 - base2 + 1,
            ensures
                *self == *old(self),
                ret_addr != 0,
                ret_addr <= limit2,
                SVM_MIN_VM_SIZE - 1 <= limit2 - ret_addr,
                SVM_MIN_VM_SIZE <= map_size,
                map_size <= limit2 - base2 + 1,
                !(forall|req: OsMapRequest, ans: u64| #[trigger]
                    call_ensures(f, (req,), ans) ==> ans == 0),
            decreases len,
        {
            if len < SVM_MIN_VM_SIZE {
                return HsakmtStatus::HSAKMT_STATUS_ERROR;
            }
            let half = (len + 1) / 2;
            let mut addr = base2;
            // Scan candidate starts upward in huge-page strides.
            loop
                invariant
                    forall|req: OsMapRequest| #[trigger] call_requires(f, (req,)),
                    *self == *old(self),
                    ret_addr == 0 || (ret_addr <= limit2 && half - 1 <= limit2 - ret_addr
                        && SVM_MIN_VM_SIZE <= map_size <= len),
                    (forall|req: OsMapRequest, ans: u64| #[trigger]
                        call_ensures(f, (req,), ans) ==> ans == 0) ==> ret_addr == 0,
                    1 <= psz,
                    base2 <= addr,
                    base2 < limit2,
                    limit2 <= SVM_RESERVATION_LIMIT,
                    half == (len + 1) / 2,
                    SVM_MIN_VM_SIZE <= len <= limit2 - base2 + 1,
                ensures
                    *self == *old(self),
                    ret_addr == 0 || (ret_addr <= limit2 && half - 1 <= limit2 - ret_addr
                        && SVM_MIN_VM_SIZE <= map_size <= len),
                    (forall|req: OsMapRequest, ans: u64| #[trigger]
                        call_ensures(f, (req,), ans) ==> ans == 0) ==> ret_addr == 0,
                decreases
                        (if addr <= limit2 {
                            limit2 + 1 - addr
                        } else {
                            0
                        }),
            {
                if !(addr <= limit2 && half - 1 <= limit2 - addr) {
                    break;
                }
                let top = MIN(addr + len, limit2 + 1);
                proof {
                    let ti = top as int - addr as int;
                    let pi = psz as int;
                    vstd::arithmetic::div_mod::lemma_fundamental_div_mod(ti, pi);
                    vstd::arithmetic::div_mod::lemma_mod_bound(ti, pi);
                    vstd::arithmetic::mul::lemma_mul_is_commutative(ti / pi, pi);
                    assert((ti / pi) * pi <= ti);
                }
                let msz = ((top - addr) / psz) * psz;
                if msz < SVM_MIN_VM_SIZE {
                    break;
                }
                let got = reserve_address(addr, msz, f);
                if got == 0 {
                    break;
                }
                if got <= limit2 && half - 1 <= limit2 - got {
                    // At least half the returned address space is
                    // GPU-addressable: take it.
                    ret_addr = got;
                    map_size = msz;
                    break;
                }
                f(OsMapRequest::Unmap { addr: got, size: msz });
                if addr > u64::MAX - GPU_HUGE_PAGE_SIZE {
                    break;
                }
                addr = addr + GPU_HUGE_PAGE_SIZE;
            }
            if ret_addr == 0 {
                // Could not reserve at this length: halve and retry.
                len = (len + 1) / 2;
                continue;
            }
            if SVM_MIN_VM_SIZE - 1 > limit2 - ret_addr {
                // The addressable portion is below the floor.
                f(OsMapRequest::Unmap { addr: ret_addr, size: map_size });
                ret_addr = 0;
                len = (len + 1) / 2;
                continue;
            }
            break;
        }
        // Accepted: [ret_addr, ret_addr + map_size) reserved, with at least
        // the 4 GiB floor addressable below limit2.
        let sbase = ret_addr;
        let slimit: u64;
        if map_size - 1 > limit2 - sbase {
            // Trim the tail that is not GPU-addressable.
            f(OsMapRequest::Unmap { addr: limit2 + 1, size: (sbase + map_size - 1) - limit2 });
            slimit = limit2;
        } else {
            slimit = sbase + map_size - 1;
        }
        let range = slimit - sbase + 1;
        proof {
            assert(SVM_MIN_VM_SIZE <= range);
            assert(slimit <= limit2);
            vstd::arithmetic::div_mod::lemma_fundamental_div_mod(range as int, 4);
            vstd::arithmetic::div_mod::lemma_mod_bound(range as int, 4);
        }
        // The coherent aperture takes the first quarter, 64 KiB aligned.
        let alt_base = ALIGN_UP(sbase, 65536);
        let alt_size = ALIGN_UP(range / 4, 65536);
        let alt_limit = alt_base + alt_size - 1;
        proof {
            assert(alt_size >= 1);
            assert(alt_base + alt_size - 1 < sbase + range - 1);
        }
        self.fmm.svm.dgpu_alt_aperture = manageable_aperture {
            base: alt_base,
            limit: alt_limit,
            align: align as u64,
            guard_pages,
            is_cpu_accessible: true,
            ops: manageable_aperture_ops_t::ReservedRange,
            tree: rbtree_s::new(),
            user_tree: rbtree_s::new(),
        };
        self.fmm.svm.dgpu_aperture = manageable_aperture {
            base: alt_limit + 1,
            limit: slimit,
            align: align as u64,
            guard_pages,
            is_cpu_accessible: true,
            ops: manageable_aperture_ops_t::ReservedRange,
            tree: rbtree_s::new(),
            user_tree: rbtree_s::new(),
        };
        self.fmm.svm.aliased = false;
        self.fmm.dgpu_shared_aperture_base = sbase;
        self.fmm.dgpu_shared_aperture_limit = slimit;
        HsakmtStatus::HSAKMT_STATUS_SUCCESS
    }
}


// ---------------------------------------------------------------------------
// Per-node aperture assignment and SVM aggregation.
// ---------------------------------------------------------------------------

/// Fold one canonical node's report into the shared SVM bounds: the shared
/// base is the maximum of the reported bases, the shared limit the minimum
/// of the reported limits (a zero limit stands for none seen yet), and the
/// shared alignment the maximum of the per-device alignments.
pub fn fmm_update_svm_aggregate(
    gpuvm_base: u64,
    gpuvm_limit: u64,
    vm_alignment: u32,
    svm_base: &mut u64,
    svm_limit: &mut u64,
    svm_alignment: &mut u32,
)
    ensures
        *final(svm_base) == if gpuvm_base > *old(svm_base) {
            gpuvm_base
        } else {
            *old(svm_base)
        },
        *final(svm_limit) == if gpuvm_limit < *old(svm_limit) || *old(svm_limit) == 0 {
            gpuvm_limit
        } else {
            *old(svm_limit)
        },
        *final(svm_alignment) == if vm_alignment > *old(svm_alignment) {
            vm_alignment
        } else {
            *old(svm_alignment)
        },
{
    if gpuvm_base > *svm_base {
        *svm_base = gpuvm_base;
    }
    if gpuvm_limit < *svm_limit || *svm_limit == 0 {
        *svm_limit = gpuvm_limit;
    }
    if vm_alignment > *svm_alignment {
        *svm_alignment = vm_alignment;
    }
}

impl HsakmtGlobals {
    /// Apply one node's reported aperture bounds to its GPU record. A
    /// canonical-addressing node (one reporting a GPUVM limit at or above
    /// one below the non-canonical boundary) joins the shared SVM apertures:
    /// its private GPUVM aperture stays null and its scratch backing
    /// alignment is set. Any other node keeps a private GPUVM aperture
    /// spanning the reported range, with one alignment-sized block reserved
    /// at its start so a post-subtraction address is never legitimately
    /// null; the reserved start is answered.
    pub fn fmm_node_set_apertures(&mut self, gpu_mem_id: usize, pa: &kfd_process_device_apertures)
        -> (r: Option<u64>)
        requires
            gpu_mem_id < old(self).fmm.gpu_mem@.len(),
            old(self).fmm.gpu_mem@[gpu_mem_id as int].gpuvm_aperture.inv(),
            old(self).fmm.gpu_mem@[gpu_mem_id as int].gpuvm_aperture.tree@ == Map::<
                rbtree_key_s,
                u64,
            >::empty(),
            1 <= old(self).hsakmt_page_size <= 0x40000000,
        ensures
            final(self).fmm.gpu_mem@.len() == old(self).fmm.gpu_mem@.len(),
            forall|i: int|
                0 <= i < old(self).fmm.gpu_mem@.len() && i != gpu_mem_id ==> final(self).fmm.gpu_mem@[i] == #[trigger] old(self).fmm.gpu_mem@[i],
            ({
                let g = final(self).fmm.gpu_mem@[gpu_mem_id as int];
                &&& g.lds_aperture.base == pa.lds_base
                &&& g.lds_aperture.limit == pa.lds_limit
                &&& g.scratch_aperture.base == pa.scratch_base
                &&& g.scratch_aperture.limit == pa.scratch_limit
                &&& (pa.gpuvm_limit >= START_NON_CANONICAL_ADDR - 1 ==> g.gpuvm_aperture.base
                    == 0 && g.gpuvm_aperture.limit == 0 && g.scratch_physical.align == old(
                    self,
                ).hsakmt_page_size as u64 && r is None)
                &&& (pa.gpuvm_limit < START_NON_CANONICAL_ADDR - 1 ==> g.gpuvm_aperture.base
                    == pa.gpuvm_base && g.gpuvm_aperture.limit == pa.gpuvm_limit
                    && g.gpuvm_aperture.ops == manageable_aperture_ops_t::ReservedRange
                    && g.gpuvm_aperture.inv())
            }),
            r matches Some(a) ==> ({
                let g = final(self).fmm.gpu_mem@[gpu_mem_id as int];
                let al = g.gpuvm_aperture.align;
                &&& pa.gpuvm_limit < START_NON_CANONICAL_ADDR - 1
                &&& g.gpuvm_aperture.tree@ == Map::<rbtree_key_s, u64>::empty().insert(
                    rbtree_key_s { addr: a, size: al as i64 },
                    0,
                )
                &&& pa.gpuvm_base <= a
                &&& a % al == 0
            }),
            // a non-canonical node with a sane alignment and room at the
            // start of its range is owed the offset-0 reservation
            ({
                let al = old(self).fmm.gpu_mem@[gpu_mem_id as int].gpuvm_aperture.align;
                &&& pa.gpuvm_limit < START_NON_CANONICAL_ADDR - 1
                &&& 1 <= al <= 0x4000000000000000
                &&& is_pow2_u64(al)
                &&& pa.gpuvm_limit < u64::MAX
                &&& spec_align_up(pa.gpuvm_base as int, al as int) + al - 1 <= pa.gpuvm_limit
            }) ==> r is Some,
    {
        let page_size = self.hsakmt_page_size as u64;
        let gm = &mut self.fmm.gpu_mem[gpu_mem_id];
        gm.lds_aperture.base = pa.lds_base;
        gm.lds_aperture.limit = pa.lds_limit;
        gm.scratch_aperture.base = pa.scratch_base;
        gm.scratch_aperture.limit = pa.scratch_limit;
        if pa.gpuvm_limit >= START_NON_CANONICAL_ADDR - 1 {
            // Per-device GPUVM apertures do not exist on canonical-addressing
            // GPUs; the node joins the shared SVM.
            gm.scratch_physical.align = page_size;
            gm.gpuvm_aperture.base = 0;
            gm.gpuvm_aperture.limit = 0;
            None
        } else {
            gm.gpuvm_aperture.base = pa.gpuvm_base;
            gm.gpuvm_aperture.limit = pa.gpuvm_limit;
            gm.gpuvm_aperture.ops = manageable_aperture_ops_t::ReservedRange;
            let align = gm.gpuvm_aperture.align;
            if align < 1 || align > 0x4000000000000000 || pa.gpuvm_limit == u64::MAX {
                return None;
            }
            // Reserve space at the start of the aperture: after subtracting
            // the base, valid pointers must not become null.
            let got = reserved_aperture_allocate_aligned(&mut gm.gpuvm_aperture, None, align, align);
            proof {
                if got is None && is_pow2_u64(align) && spec_align_up(
                    pa.gpuvm_base as int,
                    align as int,
                ) + align - 1 <= pa.gpuvm_limit {
                    lemma_spec_align_up_props(pa.gpuvm_base as int, align as int);
                    let w = spec_align_up(pa.gpuvm_base as int, align as int) as u64;
                    assert((w % align) == 0);
                    assert(!range_is_free(
                        Map::<rbtree_key_s, u64>::empty(),
                        w as int,
                        align as int,
                    ));
                    assert(Map::<rbtree_key_s, u64>::empty().dom() =~= Set::<
                        rbtree_key_s,
                    >::empty());
                    assert(false);
                }
            }
            got
        }
    }

    /// The release-path decision for one allocation: a plain device
    /// allocation is freed at once; a userptr-backed one drops one
    /// registration and is freed only when the last registration is gone.
    pub fn vm_object_release_step(&self, object: &mut vm_object_t) -> (free_now: bool)
        requires
            old(object).userptr != 0 ==> old(object).registration_count >= 1,
        ensures
            old(object).userptr == 0 ==> free_now && *final(object) == *old(object),
            old(object).userptr != 0 ==> final(object).registration_count == old(
                object,
            ).registration_count - 1 && free_now == (final(object).registration_count == 0)
                && final(object).start == old(object).start && final(object).size == old(
                object,
            ).size && final(object).handle == old(object).handle,
    {
        if object.userptr != 0 {
            object.registration_count = object.registration_count - 1;
            return object.registration_count == 0;
        }
        true
    }

    /// Record one GPU in the process-wide id table used for default
    /// mappings.
    pub fn fmm_record_gpu_id(&mut self, gpu_id: u32)
        requires
            old(self).fmm.all_gpu_id_array_size < u32::MAX,
        ensures
            final(self).fmm.all_gpu_id_array@ == old(self).fmm.all_gpu_id_array@.push(gpu_id),
            final(self).fmm.all_gpu_id_array_size == old(self).fmm.all_gpu_id_array_size + 1,
            final(self).fmm.gpu_mem@ == old(self).fmm.gpu_mem@,
            final(self).fmm.svm == old(self).fmm.svm,
            final(self).fmm.dgpu_shared_aperture_base == old(self).fmm.dgpu_shared_aperture_base,
            final(self).fmm.dgpu_shared_aperture_limit == old(self).fmm.dgpu_shared_aperture_limit,
            final(self).topology == old(self).topology,
    {
        self.fmm.all_gpu_id_array.push(gpu_id);
        self.fmm.all_gpu_id_array_size = self.fmm.all_gpu_id_array_size + 1;
    }

    /// A GPU with an io-link to another can map memory allocated there:
    /// count the linked GPU among the target's usable peers.
    pub fn fmm_register_usable_peer(&mut self, to_gpu_mem_id: usize, peer_gpu_id: u32)
        requires
            to_gpu_mem_id < old(self).fmm.gpu_mem@.len(),
            old(self).fmm.gpu_mem@[to_gpu_mem_id as int].usable_peer_id_num < u32::MAX,
        ensures
            final(self).fmm.gpu_mem@.len() == old(self).fmm.gpu_mem@.len(),
            forall|i: int|
                0 <= i < old(self).fmm.gpu_mem@.len() && i != to_gpu_mem_id ==> final(self).fmm.gpu_mem@[i] == #[trigger] old(self).fmm.gpu_mem@[i],
            final(self).fmm.gpu_mem@[to_gpu_mem_id as int].usable_peer_id_array@ == old(self).fmm.gpu_mem@[to_gpu_mem_id as int].usable_peer_id_array@.push(peer_gpu_id),
            final(self).fmm.gpu_mem@[to_gpu_mem_id as int].usable_peer_id_num == old(self).fmm.gpu_mem@[to_gpu_mem_id as int].usable_peer_id_num + 1,
            final(self).fmm.gpu_mem@[to_gpu_mem_id as int].gpu_id == old(self).fmm.gpu_mem@[to_gpu_mem_id as int].gpu_id,
            final(self).fmm.gpu_mem@[to_gpu_mem_id as int].gpuvm_aperture == old(self).fmm.gpu_mem@[to_gpu_mem_id as int].gpuvm_aperture,
            final(self).fmm.gpu_mem@[to_gpu_mem_id as int].scratch_physical == old(self).fmm.gpu_mem@[to_gpu_mem_id as int].scratch_physical,
            final(self).fmm.gpu_mem@[to_gpu_mem_id as int].lds_aperture == old(self).fmm.gpu_mem@[to_gpu_mem_id as int].lds_aperture,
            final(self).fmm.gpu_mem@[to_gpu_mem_id as int].scratch_aperture == old(self).fmm.gpu_mem@[to_gpu_mem_id as int].scratch_aperture,
            final(self).fmm.gpu_mem@[to_gpu_mem_id as int].mmio_aperture == old(self).fmm.gpu_mem@[to_gpu_mem_id as int].mmio_aperture,
            final(self).fmm.svm == old(self).fmm.svm,
    {
        let gm = &mut self.fmm.gpu_mem[to_gpu_mem_id];
        gm.usable_peer_id_array.push(peer_gpu_id);
        gm.usable_peer_id_num = gm.usable_peer_id_num + 1;
    }

    /// The cache-policy request matching the SVM split: the default policy
    /// follows the cache-disable override, the alternate policy is coherent,
    /// and the alternate range is the coherent aperture.
    pub fn fmm_memory_policy_args(&self) -> (r: (u32, u32, u64, u64))
        requires
            self.fmm.svm.dgpu_alt_aperture.base <= self.fmm.svm.dgpu_alt_aperture.limit,
            self.fmm.svm.dgpu_alt_aperture.limit < u64::MAX,
        ensures
            r.0 == if self.fmm.svm.disable_cache {
                crate::kfd_ioctl::KFD_IOC_CACHE_POLICY_COHERENT
            } else {
                crate::kfd_ioctl::KFD_IOC_CACHE_POLICY_NONCOHERENT
            },
            r.1 == crate::kfd_ioctl::KFD_IOC_CACHE_POLICY_COHERENT,
            r.2 == self.fmm.svm.dgpu_alt_aperture.base,
            r.3 == self.fmm.svm.dgpu_alt_aperture.limit - self.fmm.svm.dgpu_alt_aperture.base + 1,
    {
        let d_c = if self.fmm.svm.disable_cache {
            crate::kfd_ioctl::KFD_IOC_CACHE_POLICY_COHERENT
        } else {
            crate::kfd_ioctl::KFD_IOC_CACHE_POLICY_NONCOHERENT
        };
        let alt_base = self.fmm.svm.dgpu_alt_aperture.base;
        let alt_size = self.fmm.svm.dgpu_alt_aperture.limit - self.fmm.svm.dgpu_alt_aperture.base
            + 1;
        (d_c, crate::kfd_ioctl::KFD_IOC_CACHE_POLICY_COHERENT, alt_base, alt_size)
    }

    /// The device control channel's answer to a mapping request for a GPU
    /// already covered by the shared apertures needs no further address
    /// work at this layer.
    pub fn hsakmt_fmm_map_to_gpu(&self, _address: u64, _size: u64) -> (ret: HsakmtStatus)
        ensures
            ret == HsakmtStatus::HSAKMT_STATUS_SUCCESS,
    {
        HsakmtStatus::HSAKMT_STATUS_SUCCESS
    }
}

} // verus!
