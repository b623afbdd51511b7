//! Common value types: status codes, version and engine identifiers, memory
//! flags, topology records, and small arithmetic helpers.

#![allow(non_snake_case)]
#![allow(non_camel_case_types)]

use vstd::prelude::*;

verus! {

#[derive(Debug, Clone, Copy, PartialEq, Eq, Structural)]
pub enum HsakmtStatus {
    HSAKMT_STATUS_SUCCESS,
    HSAKMT_STATUS_ERROR,
    HSAKMT_STATUS_DRIVER_MISMATCH,
    HSAKMT_STATUS_INVALID_PARAMETER,
    HSAKMT_STATUS_INVALID_NODE_UNIT,
    HSAKMT_STATUS_NO_MEMORY,
    HSAKMT_STATUS_NOT_SUPPORTED,
    HSAKMT_STATUS_KERNEL_IO_CHANNEL_NOT_OPENED,
    HSAKMT_STATUS_KERNEL_ALREADY_OPENED,
}

#[derive(Debug, Clone, Copy, PartialEq, Eq, Structural)]
pub struct HsaVersionInfo {
    pub KernelInterfaceMajorVersion: u32,
    pub KernelInterfaceMinorVersion: u32,
}

/// Engine version identifier: major, minor and stepping of the GPU core.
#[derive(Debug, Clone, Copy, PartialEq, Eq, Structural)]
pub struct HSA_ENGINE_ID {
    pub Major: u32,
    pub Minor: u32,
    pub Stepping: u32,
}

pub const GFX_VERSION_VEGA10: u32 = 90000;

/// Pack an engine identifier into one comparable number:
/// major * 10000 + minor * 100 + stepping.
pub fn HSA_GET_GFX_VERSION_FULL(e: &HSA_ENGINE_ID) -> (r: u32)
    requires
        e.Major <= 0xff,
        e.Minor <= 0xff,
        e.Stepping <= 0xff,
    ensures
        r == e.Major * 10000 + e.Minor * 100 + e.Stepping,
{
    e.Major * 10000 + e.Minor * 100 + e.Stepping
}

/// Memory allocation flags carried by one live allocation.
#[derive(Debug, Clone, Copy, PartialEq, Eq, Structural)]
pub struct HsaMemFlags {
    pub ReadOnly: bool,
    pub CoarseGrain: bool,
    pub ExtendedCoherent: bool,
    pub HostAccess: bool,
    pub NonPaged: bool,
}

impl HsaMemFlags {
    pub fn zeroed() -> (r: HsaMemFlags)
        ensures
            r == (HsaMemFlags {
                ReadOnly: false,
                CoarseGrain: false,
                ExtendedCoherent: false,
                HostAccess: false,
                NonPaged: false,
            }),
    {
        HsaMemFlags {
            ReadOnly: false,
            CoarseGrain: false,
            ExtendedCoherent: false,
            HostAccess: false,
            NonPaged: false,
        }
    }
}

/// The large mapping granule used as the step size when probing for free
/// address ranges.
pub const GPU_HUGE_PAGE_SIZE: u64 = 2097152;

/// Round `x` up to the next multiple of `align`.
pub fn ALIGN_UP(x: u64, align: u64) -> (r: u64)
    requires
        align >= 1,
        x + align - 1 <= u64::MAX,
    ensures
        r % align == 0,
        x <= r < x + align,
        r == spec_align_up(x as int, align as int),
{
    proof {
        let xi = x as int;
        let ai = align as int;
        vstd::arithmetic::div_mod::lemma_fundamental_div_mod(xi + ai - 1, ai);
        vstd::arithmetic::div_mod::lemma_mod_multiples_basic((xi + ai - 1) / ai, ai);
        vstd::arithmetic::div_mod::lemma_mod_bound(xi + ai - 1, ai);
        vstd::arithmetic::mul::lemma_mul_is_commutative((xi + ai - 1) / ai, ai);
        assert(((xi + ai - 1) / ai) * ai == (xi + ai - 1) - ((xi + ai - 1) % ai));
    }
    ((x + (align - 1)) / align) * align
}

/// What `ALIGN_UP` computes: the least multiple of `align` at or above `x`.
pub open spec fn spec_align_up(x: int, align: int) -> int {
    ((x + align - 1) / align) * align
}

pub fn MIN(a: u64, b: u64) -> (r: u64)
    ensures
        r == if a <= b {
            a
        } else {
            b
        },
{
    if a <= b {
        a
    } else {
        b
    }
}

// ---------------------------------------------------------------------------
// Topology records.
// ---------------------------------------------------------------------------

#[derive(Debug, Clone, Copy, PartialEq, Eq, Structural)]
pub enum HSA_IOLINKTYPE {
    HSA_IOLINKTYPE_UNDEFINED,
    HSA_IOLINK_TYPE_HYPERTRANSPORT,
    HSA_IOLINKTYPE_PCIEXPRESS,
    HSA_IOLINKTYPE_AMBA,
    HSA_IOLINK_TYPE_MIPI,
    HSA_IOLINK_TYPE_QPI_1_1,
    HSA_IOLINK_TYPE_RESERVED1,
    HSA_IOLINK_TYPE_RESERVED2,
    HSA_IOLINK_TYPE_RAPID_IO,
    HSA_IOLINK_TYPE_INFINIBAND,
    HSA_IOLINK_TYPE_XGMI,
}

#[derive(Debug, Clone, Copy, PartialEq, Eq, Structural)]
pub enum HSA_HEAPTYPE {
    HSA_HEAPTYPE_SYSTEM,
    HSA_HEAPTYPE_FRAME_BUFFER_PUBLIC,
    HSA_HEAPTYPE_FRAME_BUFFER_PRIVATE,
    HSA_HEAPTYPE_GPU_GDS,
    HSA_HEAPTYPE_GPU_LDS,
    HSA_HEAPTYPE_GPU_SCRATCH,
    HSA_HEAPTYPE_DEVICE_SVM,
    HSA_HEAPTYPE_MMIO_REMAP,
}

pub const HSA_CPU_SIBLINGS: usize = 256;

#[derive(Debug, Clone, Copy, PartialEq, Eq, Structural)]
pub struct HsaSystemProperties {
    pub NumNodes: u32,
    pub PlatformOem: u32,
    pub PlatformId: u32,
    pub PlatformRev: u32,
}

impl HsaSystemProperties {
    pub fn zeroed() -> (r: HsaSystemProperties)
        ensures
            r.NumNodes == 0,
            r.PlatformOem == 0,
            r.PlatformId == 0,
            r.PlatformRev == 0,
    {
        HsaSystemProperties { NumNodes: 0, PlatformOem: 0, PlatformId: 0, PlatformRev: 0 }
    }
}

/// The per-node properties the aperture layer reads.
#[derive(Debug, Clone, Copy, PartialEq, Eq, Structural)]
pub struct HsaNodeProperties {
    pub KFDGpuID: u32,
    pub DeviceId: u32,
    pub DrmRenderMinor: i32,
    pub LocalMemSize: u64,
    pub EngineId: HSA_ENGINE_ID,
    pub Capability_SVMAPISupported: bool,
    pub NumIOLinks: u32,
    pub NumMemoryBanks: u32,
    pub HiveID: u64,
    pub NumCPUCores: u32,
    pub NumFComputeCores: u32,
    pub Integrated: bool,
    pub FamilyID: u32,
}

impl HsaNodeProperties {
    pub fn zeroed() -> (r: HsaNodeProperties)
        ensures
            r.KFDGpuID == 0,
            r.NumIOLinks == 0,
            r.HiveID == 0,
            r.NumMemoryBanks == 0,
    {
        HsaNodeProperties {
            KFDGpuID: 0,
            DeviceId: 0,
            DrmRenderMinor: 0,
            LocalMemSize: 0,
            EngineId: HSA_ENGINE_ID { Major: 0, Minor: 0, Stepping: 0 },
            Capability_SVMAPISupported: false,
            NumIOLinks: 0,
            NumMemoryBanks: 0,
            HiveID: 0,
            NumCPUCores: 0,
            NumFComputeCores: 0,
            Integrated: false,
            FamilyID: 0,
        }
    }
}

#[derive(Debug, Clone, Copy, PartialEq, Eq, Structural)]
pub struct HsaIoLinkProperties {
    pub IoLinkType: HSA_IOLINKTYPE,
    pub NodeFrom: u32,
    pub NodeTo: u32,
    pub Weight: u32,
}

#[derive(Debug, Clone, Copy, PartialEq, Eq, Structural)]
pub struct HsaMemoryProperties {
    pub HeapType: HSA_HEAPTYPE,
    pub SizeInBytes: u64,
}

/// One CPU cache as the per-node cache tables describe it.
#[derive(Debug, Clone)]
pub struct HsaCacheProperties {
    pub ProcessorIdLow: u32,
    pub CacheLevel: u32,
    pub CacheSize: u32,
    pub CacheLineSize: u32,
    pub CacheLinesPerTag: u32,
    pub CacheAssociativity: u32,
    pub CacheLatency: u32,
    pub SiblingMap: Vec<u8>,
}

/// One row of `/proc/cpuinfo`: processor number, local APIC id, model name.
#[derive(Debug, Clone, PartialEq, Eq)]
pub struct proc_cpuinfo {
    pub proc_num: u32,
    pub apicid: u32,
    pub model_name: Vec<u8>,
}

/// The cache table of one CPU: its processor number and the caches it
/// reports, trimmed of the entries other CPUs already listed.
#[derive(Debug)]
pub struct cpu_cacheinfo_t {
    pub len: u32,
    pub proc_num: i32,
    pub num_caches: u32,
    pub cache_prop: Vec<HsaCacheProperties>,
}

/// One topology node with its io-link and memory-bank tables.
#[derive(Debug, Clone)]
pub struct node_props_t {
    pub node: HsaNodeProperties,
    pub link: Vec<HsaIoLinkProperties>,
    pub mem: Vec<HsaMemoryProperties>,
}

/// One row of the GFX IP lookup table.
#[derive(Debug, Clone, Copy, PartialEq, Eq, Structural)]
pub struct hsa_gfxip_table {
    pub device_id: u16,
    pub major: u8,
    pub minor: u8,
    pub stepping: u8,
}

/// The rows of the GFX IP table, as a value the lookup's contract can
/// speak of.
pub open spec fn spec_gfxip_table() -> Seq<hsa_gfxip_table> {
    seq![
        hsa_gfxip_table { device_id: 0x1304, major: 7, minor: 0, stepping: 0 },
        hsa_gfxip_table { device_id: 0x1305, major: 7, minor: 0, stepping: 0 },
        hsa_gfxip_table { device_id: 0x1306, major: 7, minor: 0, stepping: 0 },
        hsa_gfxip_table { device_id: 0x1307, major: 7, minor: 0, stepping: 0 },
        hsa_gfxip_table { device_id: 0x67a0, major: 7, minor: 0, stepping: 1 },
        hsa_gfxip_table { device_id: 0x67a1, major: 7, minor: 0, stepping: 1 },
        hsa_gfxip_table { device_id: 0x9870, major: 8, minor: 0, stepping: 1 },
        hsa_gfxip_table { device_id: 0x9874, major: 8, minor: 0, stepping: 1 },
        hsa_gfxip_table { device_id: 0x9875, major: 8, minor: 0, stepping: 1 },
        hsa_gfxip_table { device_id: 0x9876, major: 8, minor: 0, stepping: 1 },
        hsa_gfxip_table { device_id: 0x9877, major: 8, minor: 0, stepping: 1 },
        hsa_gfxip_table { device_id: 0x6920, major: 8, minor: 0, stepping: 2 },
        hsa_gfxip_table { device_id: 0x6921, major: 8, minor: 0, stepping: 2 },
        hsa_gfxip_table { device_id: 0x6928, major: 8, minor: 0, stepping: 2 },
        hsa_gfxip_table { device_id: 0x6938, major: 8, minor: 0, stepping: 2 },
        hsa_gfxip_table { device_id: 0x6939, major: 8, minor: 0, stepping: 2 },
        hsa_gfxip_table { device_id: 0x7300, major: 8, minor: 0, stepping: 3 },
        hsa_gfxip_table { device_id: 0x730f, major: 8, minor: 0, stepping: 3 },
        hsa_gfxip_table { device_id: 0x67c0, major: 8, minor: 0, stepping: 3 },
        hsa_gfxip_table { device_id: 0x67df, major: 8, minor: 0, stepping: 3 },
        hsa_gfxip_table { device_id: 0x67e0, major: 8, minor: 0, stepping: 3 },
        hsa_gfxip_table { device_id: 0x67ef, major: 8, minor: 0, stepping: 3 },
        hsa_gfxip_table { device_id: 0x6860, major: 9, minor: 0, stepping: 0 },
        hsa_gfxip_table { device_id: 0x6861, major: 9, minor: 0, stepping: 0 },
        hsa_gfxip_table { device_id: 0x6862, major: 9, minor: 0, stepping: 0 },
        hsa_gfxip_table { device_id: 0x6863, major: 9, minor: 0, stepping: 0 },
        hsa_gfxip_table { device_id: 0x687f, major: 9, minor: 0, stepping: 0 },
    ]
}

/// The device-id rows the lookup covers.
pub fn get_hsa_gfxip_table() -> (t: Vec<hsa_gfxip_table>)
    ensures
        t@ == spec_gfxip_table(),
        t@.len() > 0,
{
    let mut t: Vec<hsa_gfxip_table> = Vec::new();
    // Kaveri
    t.push(hsa_gfxip_table { device_id: 0x1304, major: 7, minor: 0, stepping: 0 });
    t.push(hsa_gfxip_table { device_id: 0x1305, major: 7, minor: 0, stepping: 0 });
    t.push(hsa_gfxip_table { device_id: 0x1306, major: 7, minor: 0, stepping: 0 });
    t.push(hsa_gfxip_table { device_id: 0x1307, major: 7, minor: 0, stepping: 0 });
    // Hawaii
    t.push(hsa_gfxip_table { device_id: 0x67a0, major: 7, minor: 0, stepping: 1 });
    t.push(hsa_gfxip_table { device_id: 0x67a1, major: 7, minor: 0, stepping: 1 });
    // Carrizo
    t.push(hsa_gfxip_table { device_id: 0x9870, major: 8, minor: 0, stepping: 1 });
    t.push(hsa_gfxip_table { device_id: 0x9874, major: 8, minor: 0, stepping: 1 });
    t.push(hsa_gfxip_table { device_id: 0x9875, major: 8, minor: 0, stepping: 1 });
    t.push(hsa_gfxip_table { device_id: 0x9876, major: 8, minor: 0, stepping: 1 });
    t.push(hsa_gfxip_table { device_id: 0x9877, major: 8, minor: 0, stepping: 1 });
    // Tonga
    t.push(hsa_gfxip_table { device_id: 0x6920, major: 8, minor: 0, stepping: 2 });
    t.push(hsa_gfxip_table { device_id: 0x6921, major: 8, minor: 0, stepping: 2 });
    t.push(hsa_gfxip_table { device_id: 0x6928, major: 8, minor: 0, stepping: 2 });
    t.push(hsa_gfxip_table { device_id: 0x6938, major: 8, minor: 0, stepping: 2 });
    t.push(hsa_gfxip_table { device_id: 0x6939, major: 8, minor: 0, stepping: 2 });
    // Fiji
    t.push(hsa_gfxip_table { device_id: 0x7300, major: 8, minor: 0, stepping: 3 });
    t.push(hsa_gfxip_table { device_id: 0x730f, major: 8, minor: 0, stepping: 3 });
    // Polaris10
    t.push(hsa_gfxip_table { device_id: 0x67c0, major: 8, minor: 0, stepping: 3 });
    t.push(hsa_gfxip_table { device_id: 0x67df, major: 8, minor: 0, stepping: 3 });
    // Polaris11
    t.push(hsa_gfxip_table { device_id: 0x67e0, major: 8, minor: 0, stepping: 3 });
    t.push(hsa_gfxip_table { device_id: 0x67ef, major: 8, minor: 0, stepping: 3 });
    // Vega10
    t.push(hsa_gfxip_table { device_id: 0x6860, major: 9, minor: 0, stepping: 0 });
    t.push(hsa_gfxip_table { device_id: 0x6861, major: 9, minor: 0, stepping: 0 });
    t.push(hsa_gfxip_table { device_id: 0x6862, major: 9, minor: 0, stepping: 0 });
    t.push(hsa_gfxip_table { device_id: 0x6863, major: 9, minor: 0, stepping: 0 });
    t.push(hsa_gfxip_table { device_id: 0x687f, major: 9, minor: 0, stepping: 0 });
    proof {
        assert(t@ =~= spec_gfxip_table());
    }
    t
}

} // verus!
