//! Topology logic over plain per-node records: engine-version packing, the
//! GFX IP table lookup, and the io-link graph rules (direct links, the CPU a
//! GPU hangs off, and indirect GPU links composed across CPUs).

#![allow(non_snake_case)]
#![allow(non_camel_case_types)]

use crate::globals::HsakmtGlobals;
use crate::hsakmttypes::{
    get_hsa_gfxip_table, hsa_gfxip_table, node_props_t, HsaIoLinkProperties, HsaNodeProperties,
    HsaSystemProperties, HsakmtStatus, HSA_HEAPTYPE, HSA_IOLINKTYPE,
};
use vstd::prelude::*;

verus! {

/// Major component of a packed GFX version.
pub fn HSA_GET_GFX_VERSION_MAJOR(gfxv: u32) -> (r: u32)
    ensures
        r == (gfxv / 10000) % 100,
{
    (gfxv / 10000) % 100
}

/// Minor component of a packed GFX version.
pub fn HSA_GET_GFX_VERSION_MINOR(gfxv: u16) -> (r: u32)
    ensures
        r == ((gfxv as u32) / 100) % 100,
{
    ((gfxv as u32) / 100) % 100
}

/// Stepping component of a packed GFX version.
pub fn HSA_GET_GFX_VERSION_STEP(gfxv: u16) -> (r: u32)
    ensures
        r == ((gfxv as u32) / 100) % 100,
{
    ((gfxv as u32) / 100) % 100
}

/// Index of the first table row matching the device id, or -1.
pub open spec fn spec_find_gfxip(rows: Seq<hsa_gfxip_table>, device_id: u16) -> int
    decreases rows.len(),
{
    if rows.len() == 0 {
        -1
    } else if rows[0].device_id == device_id {
        0
    } else {
        let r = spec_find_gfxip(rows.drop_first(), device_id);
        if r == -1 {
            -1
        } else {
            r + 1
        }
    }
}

pub proof fn lemma_find_gfxip_props(rows: Seq<hsa_gfxip_table>, device_id: u16)
    ensures
        spec_find_gfxip(rows, device_id) == -1 || (0 <= spec_find_gfxip(rows, device_id)
            < rows.len() && rows[spec_find_gfxip(rows, device_id)].device_id == device_id),
        forall|j: int|
            0 <= j < spec_find_gfxip(rows, device_id) ==> (#[trigger] rows[j]).device_id
                != device_id,
        spec_find_gfxip(rows, device_id) == -1 ==> (forall|j: int|
            0 <= j < rows.len() ==> (#[trigger] rows[j]).device_id != device_id),
    decreases rows.len(),
{
    if rows.len() != 0 && rows[0].device_id != device_id {
        lemma_find_gfxip_props(rows.drop_first(), device_id);
        assert forall|j: int|
            0 <= j < spec_find_gfxip(rows, device_id) implies (#[trigger] rows[j]).device_id
            != device_id by {
            if j > 0 {
                assert(rows.drop_first()[j - 1] == rows[j]);
            }
        }
        if spec_find_gfxip(rows, device_id) == -1 {
            assert forall|j: int| 0 <= j < rows.len() implies (#[trigger] rows[j]).device_id
                != device_id by {
                if j > 0 {
                    assert(rows.drop_first()[j - 1] == rows[j]);
                }
            }
        }
    }
}

/// The first row of the GFX IP table matching the device id; devices past
/// major version 10 are not table-driven, and an absent row answers nothing.
pub fn find_hsa_gfxip_device(device_id: u16, gfxv_major: u8) -> (r: Option<hsa_gfxip_table>)
    ensures
        gfxv_major > 10 ==> r is None,
        gfxv_major <= 10 ==> ({
            let d = spec_find_gfxip(crate::hsakmttypes::spec_gfxip_table(), device_id);
            if d == -1 {
                r is None
            } else {
                r == Some(crate::hsakmttypes::spec_gfxip_table()[d])
            }
        }),
{
    if gfxv_major > 10 {
        return None;
    }
    let gfxip_lookup_table = get_hsa_gfxip_table();
    let ghost rows = gfxip_lookup_table@;
    proof {
        lemma_find_gfxip_props(rows, device_id);
    }
    let mut i: usize = 0;
    while i < gfxip_lookup_table.len()
        invariant
            i <= rows.len(),
            rows == gfxip_lookup_table@,
            rows == crate::hsakmttypes::spec_gfxip_table(),
            gfxv_major <= 10,
            forall|j: int| 0 <= j < i ==> (#[trigger] rows[j]).device_id != device_id,
        decreases rows.len() - i,
    {
        if gfxip_lookup_table[i].device_id == device_id {
            proof {
                lemma_find_gfxip_first(rows, device_id, i as int);
            }
            return Some(gfxip_lookup_table[i]);
        }
        i = i + 1;
    }
    proof {
        lemma_find_gfxip_props(rows, device_id);
    }
    None
}

proof fn lemma_find_gfxip_first(rows: Seq<hsa_gfxip_table>, device_id: u16, i: int)
    requires
        0 <= i < rows.len(),
        forall|j: int| 0 <= j < i ==> (#[trigger] rows[j]).device_id != device_id,
        rows[i].device_id == device_id,
    ensures
        spec_find_gfxip(rows, device_id) == i,
{
    lemma_find_gfxip_props(rows, device_id);
    let d = spec_find_gfxip(rows, device_id);
    if d == -1 || d > i {
        assert(rows[i].device_id != device_id);
    }
    if 0 <= d < i {
        assert(rows[d].device_id != device_id);
    }
}

// ---------------------------------------------------------------------------
// Io-link searches, as mathematical functions of the link tables.
// ---------------------------------------------------------------------------

/// Index of the first link leading to `node_to`, or -1.
pub open spec fn spec_find_link(links: Seq<HsaIoLinkProperties>, node_to: u32) -> int
    decreases links.len(),
{
    if links.len() == 0 {
        -1
    } else if links[0].NodeTo == node_to {
        0
    } else {
        let r = spec_find_link(links.drop_first(), node_to);
        if r == -1 {
            -1
        } else {
            r + 1
        }
    }
}

pub proof fn lemma_find_link_props(links: Seq<HsaIoLinkProperties>, node_to: u32)
    ensures
        spec_find_link(links, node_to) == -1 || (0 <= spec_find_link(links, node_to)
            < links.len() && links[spec_find_link(links, node_to)].NodeTo == node_to),
        forall|j: int|
            0 <= j < spec_find_link(links, node_to) ==> (#[trigger] links[j]).NodeTo != node_to,
        spec_find_link(links, node_to) == -1 ==> (forall|j: int|
            0 <= j < links.len() ==> (#[trigger] links[j]).NodeTo != node_to),
    decreases links.len(),
{
    if links.len() != 0 && links[0].NodeTo != node_to {
        lemma_find_link_props(links.drop_first(), node_to);
        let r0 = spec_find_link(links.drop_first(), node_to);
        assert forall|j: int|
            0 <= j < spec_find_link(links, node_to) implies (#[trigger] links[j]).NodeTo
            != node_to by {
            if j > 0 {
                assert(links.drop_first()[j - 1] == links[j]);
            }
        }
        if spec_find_link(links, node_to) == -1 {
            assert forall|j: int| 0 <= j < links.len() implies (#[trigger] links[j]).NodeTo
                != node_to by {
                if j > 0 {
                    assert(links.drop_first()[j - 1] == links[j]);
                }
            }
        }
    }
}

/// Index of the first direct PCI Express link of weight at most 20 (a
/// heavier one would be a GPU-CPU-GPU detour), or -1.
pub open spec fn spec_direct_cpu(links: Seq<HsaIoLinkProperties>) -> int
    decreases links.len(),
{
    if links.len() == 0 {
        -1
    } else if links[0].IoLinkType == HSA_IOLINKTYPE::HSA_IOLINKTYPE_PCIEXPRESS && links[0].Weight
        <= 20 {
        0
    } else {
        let r = spec_direct_cpu(links.drop_first());
        if r == -1 {
            -1
        } else {
            r + 1
        }
    }
}

pub proof fn lemma_direct_cpu_props(links: Seq<HsaIoLinkProperties>)
    ensures
        spec_direct_cpu(links) == -1 || (0 <= spec_direct_cpu(links) < links.len()
            && links[spec_direct_cpu(links)].IoLinkType
            == HSA_IOLINKTYPE::HSA_IOLINKTYPE_PCIEXPRESS && links[spec_direct_cpu(links)].Weight
            <= 20),
        forall|j: int|
            0 <= j < spec_direct_cpu(links) ==> !((#[trigger] links[j]).IoLinkType
                == HSA_IOLINKTYPE::HSA_IOLINKTYPE_PCIEXPRESS && links[j].Weight <= 20),
        spec_direct_cpu(links) == -1 ==> (forall|j: int|
            0 <= j < links.len() ==> !((#[trigger] links[j]).IoLinkType
                == HSA_IOLINKTYPE::HSA_IOLINKTYPE_PCIEXPRESS && links[j].Weight <= 20)),
    decreases links.len(),
{
    if links.len() != 0 && !(links[0].IoLinkType == HSA_IOLINKTYPE::HSA_IOLINKTYPE_PCIEXPRESS
        && links[0].Weight <= 20) {
        lemma_direct_cpu_props(links.drop_first());
        assert forall|j: int|
            0 <= j < spec_direct_cpu(links) implies !((#[trigger] links[j]).IoLinkType
            == HSA_IOLINKTYPE::HSA_IOLINKTYPE_PCIEXPRESS && links[j].Weight <= 20) by {
            if j > 0 {
                assert(links.drop_first()[j - 1] == links[j]);
            }
        }
        if spec_direct_cpu(links) == -1 {
            assert forall|j: int|
                0 <= j < links.len() implies !((#[trigger] links[j]).IoLinkType
                == HSA_IOLINKTYPE::HSA_IOLINKTYPE_PCIEXPRESS && links[j].Weight <= 20) by {
                if j > 0 {
                    assert(links.drop_first()[j - 1] == links[j]);
                }
            }
        }
    }
}

/// Index of the first public frame-buffer bank, or -1.
pub open spec fn spec_find_fb_public(mem: Seq<crate::hsakmttypes::HsaMemoryProperties>) -> int
    decreases mem.len(),
{
    if mem.len() == 0 {
        -1
    } else if mem[0].HeapType == HSA_HEAPTYPE::HSA_HEAPTYPE_FRAME_BUFFER_PUBLIC {
        0
    } else {
        let r = spec_find_fb_public(mem.drop_first());
        if r == -1 {
            -1
        } else {
            r + 1
        }
    }
}

/// Find the CPU that this GPU directly connects to, or -1 when the node is
/// no GPU or has no qualifying link.
pub fn gpu_get_direct_link_cpu(gpu_node: u32, node_props: &Vec<node_props_t>) -> (r: i32)
    requires
        (gpu_node as int) < node_props@.len(),
        forall|j: int|
            0 <= j < node_props@[gpu_node as int].link@.len() ==> (#[trigger] node_props@[
                gpu_node as int].link@[j]).NodeTo < 0x80000000,
    ensures
        ({
            let node = node_props@[gpu_node as int];
            let d = spec_direct_cpu(node.link@);
            if node.node.KFDGpuID == 0 || node.link@.len() == 0 || node.node.NumIOLinks == 0 || d
                == -1 {
                r == -1
            } else {
                r == node.link@[d].NodeTo
            }
        }),
{
    proof {
        lemma_direct_cpu_props(node_props@[gpu_node as int].link@);
    }
    let ghost glinks = node_props@[gpu_node as int].link@;
    if node_props[gpu_node as usize].node.KFDGpuID == 0 || node_props[gpu_node as usize].link.len()
        == 0 || node_props[gpu_node as usize].node.NumIOLinks == 0 {
        return -1;
    }
    let mut i: usize = 0;
    while i < node_props[gpu_node as usize].link.len()
        invariant
            i <= glinks.len(),
            (gpu_node as int) < node_props@.len(),
            glinks == node_props@[gpu_node as int].link@,
            node_props@[gpu_node as int].node.KFDGpuID != 0,
            node_props@[gpu_node as int].node.NumIOLinks != 0,
            glinks.len() != 0,
            forall|j: int| 0 <= j < glinks.len() ==> (#[trigger] glinks[j]).NodeTo < 0x80000000,
            forall|j: int|
                0 <= j < i ==> !((#[trigger] glinks[j]).IoLinkType
                    == HSA_IOLINKTYPE::HSA_IOLINKTYPE_PCIEXPRESS && glinks[j].Weight <= 20),
        decreases glinks.len() - i,
    {
        let prop = node_props[gpu_node as usize].link[i];
        if matches!(prop.IoLinkType, HSA_IOLINKTYPE::HSA_IOLINKTYPE_PCIEXPRESS) && prop.Weight
            <= 20 {
            proof {
                lemma_prefix_scan_direct_cpu(glinks, i as int);
            }
            return prop.NodeTo as i32;
        }
        proof {
            lemma_prefix_scan_direct_cpu_miss(glinks, i as int);
        }
        i = i + 1;
    }
    proof {
        lemma_direct_cpu_props(glinks);
    }
    -1
}

/// If every link before `i` misses and link `i` qualifies, `i` is the first
/// qualifying link.
proof fn lemma_prefix_scan_direct_cpu(links: Seq<HsaIoLinkProperties>, i: int)
    requires
        0 <= i < links.len(),
        forall|j: int|
            0 <= j < i ==> !((#[trigger] links[j]).IoLinkType
                == HSA_IOLINKTYPE::HSA_IOLINKTYPE_PCIEXPRESS && links[j].Weight <= 20),
        links[i].IoLinkType == HSA_IOLINKTYPE::HSA_IOLINKTYPE_PCIEXPRESS && links[i].Weight <= 20,
    ensures
        spec_direct_cpu(links) == i,
{
    lemma_direct_cpu_props(links);
    let d = spec_direct_cpu(links);
    if d == -1 || d > i {
        assert(!(links[i].IoLinkType == HSA_IOLINKTYPE::HSA_IOLINKTYPE_PCIEXPRESS
            && links[i].Weight <= 20));
    }
    if d < i {
        assert(!(links[d].IoLinkType == HSA_IOLINKTYPE::HSA_IOLINKTYPE_PCIEXPRESS
            && links[d].Weight <= 20));
    }
}

/// If every link up to `i` misses, the first qualifying link is past `i`.
proof fn lemma_prefix_scan_direct_cpu_miss(links: Seq<HsaIoLinkProperties>, i: int)
    requires
        0 <= i < links.len(),
        forall|j: int|
            0 <= j <= i ==> !((#[trigger] links[j]).IoLinkType
                == HSA_IOLINKTYPE::HSA_IOLINKTYPE_PCIEXPRESS && links[j].Weight <= 20),
    ensures
        spec_direct_cpu(links) == -1 || spec_direct_cpu(links) > i,
{
    lemma_direct_cpu_props(links);
}

/// The direct link `node1 -> node2`: invalid-unit when `node1` reports no
/// links at all, invalid-parameter when none leads to `node2`, else its
/// weight and type.
pub fn get_direct_iolink_info(node1: u32, node2: u32, node_props: &Vec<node_props_t>) -> (r: (
    HsakmtStatus,
    u32,
    HSA_IOLINKTYPE,
))
    requires
        (node1 as int) < node_props@.len(),
    ensures
        ({
            let links = node_props@[node1 as int].link@;
            let d = spec_find_link(links, node2);
            if links.len() == 0 {
                r.0 == HsakmtStatus::HSAKMT_STATUS_INVALID_NODE_UNIT
            } else if d == -1 {
                r.0 == HsakmtStatus::HSAKMT_STATUS_INVALID_PARAMETER
            } else {
                r.0 == HsakmtStatus::HSAKMT_STATUS_SUCCESS && r.1 == links[d].Weight && r.2
                    == links[d].IoLinkType
            }
        }),
{
    proof {
        lemma_find_link_props(node_props@[node1 as int].link@, node2);
    }
    let ghost glinks = node_props@[node1 as int].link@;
    if node_props[node1 as usize].link.len() == 0 {
        return (
            HsakmtStatus::HSAKMT_STATUS_INVALID_NODE_UNIT,
            0,
            HSA_IOLINKTYPE::HSA_IOLINKTYPE_UNDEFINED,
        );
    }
    let mut i: usize = 0;
    while i < node_props[node1 as usize].link.len()
        invariant
            i <= glinks.len(),
            (node1 as int) < node_props@.len(),
            glinks == node_props@[node1 as int].link@,
            forall|j: int| 0 <= j < i ==> (#[trigger] glinks[j]).NodeTo != node2,
        decreases glinks.len() - i,
    {
        let prop = node_props[node1 as usize].link[i];
        if prop.NodeTo == node2 {
            proof {
                lemma_prefix_scan_find_link(glinks, node2, i as int);
            }
            return (HsakmtStatus::HSAKMT_STATUS_SUCCESS, prop.Weight, prop.IoLinkType);
        }
        proof {
            lemma_prefix_scan_find_link_miss(glinks, node2, i as int);
        }
        i = i + 1;
    }
    proof {
        lemma_find_link_props(glinks, node2);
    }
    (HsakmtStatus::HSAKMT_STATUS_INVALID_PARAMETER, 0, HSA_IOLINKTYPE::HSA_IOLINKTYPE_UNDEFINED)
}

proof fn lemma_prefix_scan_find_link(links: Seq<HsaIoLinkProperties>, node_to: u32, i: int)
    requires
        0 <= i < links.len(),
        forall|j: int| 0 <= j < i ==> (#[trigger] links[j]).NodeTo != node_to,
        links[i].NodeTo == node_to,
    ensures
        spec_find_link(links, node_to) == i,
{
    lemma_find_link_props(links, node_to);
    let d = spec_find_link(links, node_to);
    if d == -1 || d > i {
        assert(links[i].NodeTo != node_to);
    }
    if 0 <= d < i {
        assert(links[d].NodeTo != node_to);
    }
}

proof fn lemma_prefix_scan_find_link_miss(links: Seq<HsaIoLinkProperties>, node_to: u32, i: int)
    requires
        0 <= i < links.len(),
        forall|j: int| 0 <= j <= i ==> (#[trigger] links[j]).NodeTo != node_to,
    ensures
        spec_find_link(links, node_to) == -1 || spec_find_link(links, node_to) > i,
{
    lemma_find_link_props(links, node_to);
}

/// The slot the next io-link of `node_id` would take: the node's current
/// link count, when the node is known, has a link table, and has room for
/// one more link under the node budget.
pub fn topology_get_free_io_link_slot_for_node(
    node_id: u32,
    sys_props: &HsaSystemProperties,
    node_props: &Vec<node_props_t>,
) -> (r: Option<usize>)
    requires
        node_props@.len() >= sys_props.NumNodes,
    ensures
        ({
            let ok = node_id < sys_props.NumNodes && sys_props.NumNodes >= 1 && node_props@[node_id as int].link@.len() > 0 && node_props@[node_id as int].node.NumIOLinks < sys_props.NumNodes
                - 1 && node_props@[node_id as int].node.NumIOLinks < node_props@[node_id as int].link@.len();
            if ok {
                r == Some(node_props@[node_id as int].node.NumIOLinks as usize)
            } else {
                r is None
            }
        }),
{
    if node_id >= sys_props.NumNodes {
        return None;
    }
    let idx = node_id as usize;
    if node_props[idx].link.len() == 0 {
        return None;
    }
    if sys_props.NumNodes < 1 || node_props[idx].node.NumIOLinks >= sys_props.NumNodes - 1 {
        return None;
    }
    let slot = node_props[idx].node.NumIOLinks as usize;
    if slot >= node_props[idx].link.len() {
        return None;
    }
    Some(slot)
}

/// If a free slot is available, record an io-link of the given type, ends
/// and weight for `node_from` and count it; with no slot the tables are
/// unchanged and no memory is reported.
pub fn topology_add_io_link_for_node(
    node_from: u32,
    sys_props: &HsaSystemProperties,
    node_props: &mut Vec<node_props_t>,
    IoLinkType: HSA_IOLINKTYPE,
    node_to: u32,
    Weight: u32,
) -> (ret: HsakmtStatus)
    requires
        old(node_props)@.len() >= sys_props.NumNodes,
    ensures
        ({
            let ok = node_from < sys_props.NumNodes && sys_props.NumNodes >= 1 && old(
                node_props,
            )@[node_from as int].link@.len() > 0 && old(node_props)@[node_from as int].node.NumIOLinks
                < sys_props.NumNodes - 1 && old(node_props)@[node_from as int].node.NumIOLinks < old(
                node_props,
            )@[node_from as int].link@.len();
            if ok {
                let slot = old(node_props)@[node_from as int].node.NumIOLinks as int;
                let entry = HsaIoLinkProperties {
                    IoLinkType,
                    NodeFrom: node_from,
                    NodeTo: node_to,
                    Weight,
                };
                &&& ret == HsakmtStatus::HSAKMT_STATUS_SUCCESS
                &&& final(node_props)@.len() == old(node_props)@.len()
                &&& final(node_props)@[node_from as int].link@ == old(node_props)@[node_from as int].link@.update(slot, entry)
                &&& final(node_props)@[node_from as int].node.NumIOLinks == old(node_props)@[node_from as int].node.NumIOLinks + 1
                &&& (forall|i: int|
                    0 <= i < old(node_props)@.len() && i != node_from ==> final(node_props)@[i]
                        == #[trigger] old(node_props)@[i])
            } else {
                ret == HsakmtStatus::HSAKMT_STATUS_NO_MEMORY && final(node_props)@ == old(
                    node_props,
                )@
            }
        }),
{
    let slot = topology_get_free_io_link_slot_for_node(node_from, sys_props, node_props);
    match slot {
        None => HsakmtStatus::HSAKMT_STATUS_NO_MEMORY,
        Some(index) => {
            let np = &mut node_props[node_from as usize];
            np.link[index] = HsaIoLinkProperties {
                IoLinkType,
                NodeFrom: node_from,
                NodeTo: node_to,
                Weight,
            };
            np.node.NumIOLinks = np.node.NumIOLinks + 1;
            HsakmtStatus::HSAKMT_STATUS_SUCCESS
        },
    }
}

/// What the direct-link query answers, as a function of the link tables.
pub open spec fn spec_direct_info(props: Seq<node_props_t>, n1: int, n2: u32) -> (
    HsakmtStatus,
    u32,
    HSA_IOLINKTYPE,
) {
    let links = props[n1].link@;
    let d = spec_find_link(links, n2);
    if links.len() == 0 {
        (
            HsakmtStatus::HSAKMT_STATUS_INVALID_NODE_UNIT,
            0u32,
            HSA_IOLINKTYPE::HSA_IOLINKTYPE_UNDEFINED,
        )
    } else if d == -1 {
        (
            HsakmtStatus::HSAKMT_STATUS_INVALID_PARAMETER,
            0u32,
            HSA_IOLINKTYPE::HSA_IOLINKTYPE_UNDEFINED,
        )
    } else {
        (HsakmtStatus::HSAKMT_STATUS_SUCCESS, links[d].Weight, links[d].IoLinkType)
    }
}

/// The CPU a GPU node hangs off, as a function of the link tables.
pub open spec fn spec_dir_cpu(props: Seq<node_props_t>, n: int) -> int {
    let node = props[n];
    let d = spec_direct_cpu(node.link@);
    if node.node.KFDGpuID == 0 || node.link@.len() == 0 || node.node.NumIOLinks == 0 || d == -1 {
        -1
    } else {
        node.link@[d].NodeTo as int
    }
}

/// What the indirect-link query answers: the guard cases, then the weights
/// of the two- or three-hop path over the connecting CPUs, with the type of
/// the middle link.
pub open spec fn spec_indirect_info(props: Seq<node_props_t>, n1: int, n2: int) -> (
    HsakmtStatus,
    u32,
    HSA_IOLINKTYPE,
) {
    let undef = HSA_IOLINKTYPE::HSA_IOLINKTYPE_UNDEFINED;
    if n1 == n2 {
        (HsakmtStatus::HSAKMT_STATUS_INVALID_PARAMETER, 0u32, undef)
    } else if props[n1].node.KFDGpuID == 0 && props[n2].node.KFDGpuID == 0 {
        (HsakmtStatus::HSAKMT_STATUS_INVALID_NODE_UNIT, 0u32, undef)
    } else if props[n1].node.HiveID > 0 && props[n2].node.HiveID > 0 && props[n1].node.HiveID
        == props[n2].node.HiveID {
        (HsakmtStatus::HSAKMT_STATUS_INVALID_PARAMETER, 0u32, undef)
    } else {
        let c1 = if props[n1].node.KFDGpuID > 0 {
            spec_dir_cpu(props, n1)
        } else {
            -1
        };
        let c2 = if props[n2].node.KFDGpuID > 0 {
            spec_dir_cpu(props, n2)
        } else {
            -1
        };
        if c1 < 0 && c2 < 0 {
            (HsakmtStatus::HSAKMT_STATUS_ERROR, 0u32, undef)
        } else if props[n2].node.KFDGpuID > 0 && spec_fb_scan_index(props[n2].mem@)
            >= props[n2].node.NumMemoryBanks {
            (HsakmtStatus::HSAKMT_STATUS_ERROR, 0u32, undef)
        } else if c1 >= 0 && c2 >= 0 && c1 == c2 {
            spec_two_hop(props, n1, c1, n2)
        } else if c1 >= 0 && c2 >= 0 {
            spec_three_hop(props, n1, c1, c2, n2)
        } else if c1 >= 0 {
            spec_two_hop(props, n1, c1, n2)
        } else {
            spec_two_hop(props, n1, c2, n2)
        }
    }
}

/// Weights along `a -> mid -> b`; the middle link gives the type.
pub open spec fn spec_two_hop(props: Seq<node_props_t>, a: int, mid: int, b: int) -> (
    HsakmtStatus,
    u32,
    HSA_IOLINKTYPE,
) {
    let undef = HSA_IOLINKTYPE::HSA_IOLINKTYPE_UNDEFINED;
    let first = spec_direct_info(props, a, mid as u32);
    if first.0 != HsakmtStatus::HSAKMT_STATUS_SUCCESS {
        (first.0, 0u32, undef)
    } else {
        let second = spec_direct_info(props, mid, b as u32);
        if second.0 != HsakmtStatus::HSAKMT_STATUS_SUCCESS {
            (second.0, 0u32, undef)
        } else {
            (HsakmtStatus::HSAKMT_STATUS_SUCCESS, (first.1 + second.1) as u32, second.2)
        }
    }
}

/// Weights along `a -> c1 -> c2 -> b`; the CPU-to-CPU link gives the type,
/// and a heavy QPI link between the CPUs means the GPUs cannot reach each
/// other.
pub open spec fn spec_three_hop(props: Seq<node_props_t>, a: int, c1: int, c2: int, b: int) -> (
    HsakmtStatus,
    u32,
    HSA_IOLINKTYPE,
) {
    let undef = HSA_IOLINKTYPE::HSA_IOLINKTYPE_UNDEFINED;
    let first = spec_direct_info(props, a, c1 as u32);
    if first.0 != HsakmtStatus::HSAKMT_STATUS_SUCCESS {
        (first.0, 0u32, undef)
    } else {
        let second = spec_direct_info(props, c1, c2 as u32);
        if second.0 != HsakmtStatus::HSAKMT_STATUS_SUCCESS {
            (second.0, 0u32, undef)
        } else if second.2 == HSA_IOLINKTYPE::HSA_IOLINK_TYPE_QPI_1_1 && second.1 > 20 {
            (HsakmtStatus::HSAKMT_STATUS_NOT_SUPPORTED, 0u32, second.2)
        } else {
            let third = spec_direct_info(props, c2, b as u32);
            if third.0 != HsakmtStatus::HSAKMT_STATUS_SUCCESS {
                (third.0, 0u32, undef)
            } else {
                (
                    HsakmtStatus::HSAKMT_STATUS_SUCCESS,
                    (first.1 + second.1 + third.1) as u32,
                    second.2,
                )
            }
        }
    }
}

/// Index of the first public frame-buffer bank, with the table length
/// standing in when none exists (that is what the scan leaves behind).
pub open spec fn spec_fb_scan_index(mem: Seq<crate::hsakmttypes::HsaMemoryProperties>) -> int {
    let d = spec_find_fb_public(mem);
    if d == -1 {
        mem.len() as int
    } else {
        d
    }
}

/// Well-formedness of the link tables for composed queries: every link end
/// names a node, and the weights are small enough to sum.
pub open spec fn links_well_formed(props: Seq<node_props_t>) -> bool {
    forall|i: int, j: int|
        0 <= i < props.len() && 0 <= j < props[i].link@.len() ==> ((#[trigger] props[i].link@[j]).NodeTo
            < props.len() && props[i].link@[j].Weight <= 0x10000000 && props[i].link@[j].NodeTo
            < 0x80000000)
}

proof fn lemma_links_wf_node(props: Seq<node_props_t>, i: int)
    requires
        links_well_formed(props),
        0 <= i < props.len(),
    ensures
        forall|j: int|
            0 <= j < props[i].link@.len() ==> ((#[trigger] props[i].link@[j]).NodeTo
                < props.len() && props[i].link@[j].Weight <= 0x10000000 && props[i].link@[j].NodeTo
                < 0x80000000),
{
    assert forall|j: int| 0 <= j < props[i].link@.len() implies ((#[trigger] props[i].link@[j]).NodeTo
        < props.len() && props[i].link@[j].Weight <= 0x10000000 && props[i].link@[j].NodeTo
        < 0x80000000) by {
        assert(props[i].link@[j] == props[i].link@[j]);
    }
}

/// The indirect link `node1 -> node2` composed across the CPUs the two ends
/// hang off, as one of the possible two- or three-hop paths.
#[verifier::rlimit(100)]
#[verifier::spinoff_prover]
pub fn get_indirect_iolink_info(node1: u32, node2: u32, node_props: &Vec<node_props_t>) -> (r: (
    HsakmtStatus,
    u32,
    HSA_IOLINKTYPE,
))
    requires
        (node1 as int) < node_props@.len(),
        (node2 as int) < node_props@.len(),
        links_well_formed(node_props@),
    ensures
        r == spec_indirect_info(node_props@, node1 as int, node2 as int),
{
    let undef = HSA_IOLINKTYPE::HSA_IOLINKTYPE_UNDEFINED;
    if node1 == node2 {
        return (HsakmtStatus::HSAKMT_STATUS_INVALID_PARAMETER, 0, undef);
    }
    if node_props[node1 as usize].node.KFDGpuID == 0 && node_props[node2 as usize].node.KFDGpuID
        == 0 {
        return (HsakmtStatus::HSAKMT_STATUS_INVALID_NODE_UNIT, 0, undef);
    }
    if node_props[node1 as usize].node.HiveID > 0 && node_props[node2 as usize].node.HiveID > 0
        && node_props[node1 as usize].node.HiveID == node_props[node2 as usize].node.HiveID {
        return (HsakmtStatus::HSAKMT_STATUS_INVALID_PARAMETER, 0, undef);
    }
    proof {
        lemma_links_wf_node(node_props@, node1 as int);
        lemma_links_wf_node(node_props@, node2 as int);
    }
    let dir_cpu1: i32 = if node_props[node1 as usize].node.KFDGpuID > 0 {
        gpu_get_direct_link_cpu(node1, node_props)
    } else {
        -1
    };
    let dir_cpu2: i32 = if node_props[node2 as usize].node.KFDGpuID > 0 {
        gpu_get_direct_link_cpu(node2, node_props)
    } else {
        -1
    };
    proof {
        lemma_direct_cpu_props(node_props@[node1 as int].link@);
        lemma_direct_cpu_props(node_props@[node2 as int].link@);
    }
    if dir_cpu1 < 0 && dir_cpu2 < 0 {
        return (HsakmtStatus::HSAKMT_STATUS_ERROR, 0, undef);
    }
    // The destination GPU must expose a public frame buffer for host access.
    if node_props[node2 as usize].node.KFDGpuID > 0 {
        let scan = fb_scan_index(&node_props[node2 as usize].mem);
        if scan >= node_props[node2 as usize].node.NumMemoryBanks as usize {
            return (HsakmtStatus::HSAKMT_STATUS_ERROR, 0, undef);
        }
    }
    if dir_cpu1 >= 0 && dir_cpu2 >= 0 && dir_cpu1 == dir_cpu2 {
        two_hop_info(node1, dir_cpu1 as u32, node2, node_props)
    } else if dir_cpu1 >= 0 && dir_cpu2 >= 0 {
        three_hop_info(node1, dir_cpu1 as u32, dir_cpu2 as u32, node2, node_props)
    } else if dir_cpu1 >= 0 {
        two_hop_info(node1, dir_cpu1 as u32, node2, node_props)
    } else {
        two_hop_info(node1, dir_cpu2 as u32, node2, node_props)
    }
}

fn fb_scan_index(mem: &Vec<crate::hsakmttypes::HsaMemoryProperties>) -> (r: usize)
    ensures
        r as int == spec_fb_scan_index(mem@),
{
    proof {
        lemma_fb_public_props(mem@);
    }
    let mut i: usize = 0;
    while i < mem.len()
        invariant
            i <= mem@.len(),
            forall|j: int|
                0 <= j < i ==> (#[trigger] mem@[j]).HeapType
                    != HSA_HEAPTYPE::HSA_HEAPTYPE_FRAME_BUFFER_PUBLIC,
            spec_find_fb_public(mem@) == -1 || spec_find_fb_public(mem@) >= i,
        decreases mem@.len() - i,
    {
        if matches!(mem[i].HeapType, HSA_HEAPTYPE::HSA_HEAPTYPE_FRAME_BUFFER_PUBLIC) {
            proof {
                lemma_fb_public_props(mem@);
            }
            return i;
        }
        proof {
            lemma_fb_public_props(mem@);
        }
        i = i + 1;
    }
    proof {
        lemma_fb_public_props(mem@);
    }
    mem.len()
}

proof fn lemma_fb_public_props(mem: Seq<crate::hsakmttypes::HsaMemoryProperties>)
    ensures
        spec_find_fb_public(mem) == -1 || (0 <= spec_find_fb_public(mem) < mem.len() && mem[
            spec_find_fb_public(mem)].HeapType == HSA_HEAPTYPE::HSA_HEAPTYPE_FRAME_BUFFER_PUBLIC),
        forall|j: int|
            0 <= j < spec_find_fb_public(mem) ==> (#[trigger] mem[j]).HeapType
                != HSA_HEAPTYPE::HSA_HEAPTYPE_FRAME_BUFFER_PUBLIC,
        spec_find_fb_public(mem) == -1 ==> (forall|j: int|
            0 <= j < mem.len() ==> (#[trigger] mem[j]).HeapType
                != HSA_HEAPTYPE::HSA_HEAPTYPE_FRAME_BUFFER_PUBLIC),
    decreases mem.len(),
{
    if mem.len() != 0 && mem[0].HeapType != HSA_HEAPTYPE::HSA_HEAPTYPE_FRAME_BUFFER_PUBLIC {
        lemma_fb_public_props(mem.drop_first());
        assert forall|j: int|
            0 <= j < spec_find_fb_public(mem) implies (#[trigger] mem[j]).HeapType
            != HSA_HEAPTYPE::HSA_HEAPTYPE_FRAME_BUFFER_PUBLIC by {
            if j > 0 {
                assert(mem.drop_first()[j - 1] == mem[j]);
            }
        }
        if spec_find_fb_public(mem) == -1 {
            assert forall|j: int| 0 <= j < mem.len() implies (#[trigger] mem[j]).HeapType
                != HSA_HEAPTYPE::HSA_HEAPTYPE_FRAME_BUFFER_PUBLIC by {
                if j > 0 {
                    assert(mem.drop_first()[j - 1] == mem[j]);
                }
            }
        }
    }
}

fn two_hop_info(a: u32, mid: u32, b: u32, node_props: &Vec<node_props_t>) -> (r: (
    HsakmtStatus,
    u32,
    HSA_IOLINKTYPE,
))
    requires
        (a as int) < node_props@.len(),
        (mid as int) < node_props@.len(),
        links_well_formed(node_props@),
    ensures
        r == spec_two_hop(node_props@, a as int, mid as int, b as int),
{
    let undef = HSA_IOLINKTYPE::HSA_IOLINKTYPE_UNDEFINED;
    let (st1, w1, _t1) = get_direct_iolink_info(a, mid, node_props);
    if !matches!(st1, HsakmtStatus::HSAKMT_STATUS_SUCCESS) {
        return (st1, 0, undef);
    }
    let (st2, w2, t2) = get_direct_iolink_info(mid, b, node_props);
    if !matches!(st2, HsakmtStatus::HSAKMT_STATUS_SUCCESS) {
        return (st2, 0, undef);
    }
    proof {
        lemma_links_wf_node(node_props@, a as int);
        lemma_links_wf_node(node_props@, mid as int);
        lemma_find_link_props(node_props@[a as int].link@, mid);
        lemma_find_link_props(node_props@[mid as int].link@, b);
    }
    (HsakmtStatus::HSAKMT_STATUS_SUCCESS, w1 + w2, t2)
}

fn three_hop_info(a: u32, c1: u32, c2: u32, b: u32, node_props: &Vec<node_props_t>) -> (r: (
    HsakmtStatus,
    u32,
    HSA_IOLINKTYPE,
))
    requires
        (a as int) < node_props@.len(),
        (c1 as int) < node_props@.len(),
        (c2 as int) < node_props@.len(),
        links_well_formed(node_props@),
    ensures
        r == spec_three_hop(node_props@, a as int, c1 as int, c2 as int, b as int),
{
    let undef = HSA_IOLINKTYPE::HSA_IOLINKTYPE_UNDEFINED;
    let (st1, w1, _t1) = get_direct_iolink_info(a, c1, node_props);
    if !matches!(st1, HsakmtStatus::HSAKMT_STATUS_SUCCESS) {
        return (st1, 0, undef);
    }
    let (st2, w2, t2) = get_direct_iolink_info(c1, c2, node_props);
    if !matches!(st2, HsakmtStatus::HSAKMT_STATUS_SUCCESS) {
        return (st2, 0, undef);
    }
    // On QPI interconnects, GPUs attached to different CPU sockets (a
    // CPU-to-CPU weight above 20) cannot reach each other.
    if matches!(t2, HSA_IOLINKTYPE::HSA_IOLINK_TYPE_QPI_1_1) && w2 > 20 {
        return (HsakmtStatus::HSAKMT_STATUS_NOT_SUPPORTED, 0, t2);
    }
    let (st3, w3, _t3) = get_direct_iolink_info(c2, b, node_props);
    if !matches!(st3, HsakmtStatus::HSAKMT_STATUS_SUCCESS) {
        return (st3, 0, undef);
    }
    proof {
        lemma_links_wf_node(node_props@, a as int);
        lemma_links_wf_node(node_props@, c1 as int);
        lemma_links_wf_node(node_props@, c2 as int);
        lemma_find_link_props(node_props@[a as int].link@, c1);
        lemma_find_link_props(node_props@[c1 as int].link@, c2);
        lemma_find_link_props(node_props@[c2 as int].link@, b);
    }
    (HsakmtStatus::HSAKMT_STATUS_SUCCESS, w1 + w2 + w3, t2)
}

/// Recording a well-formed link entry keeps the tables well formed.
proof fn lemma_links_wf_after_add(
    before: Seq<node_props_t>,
    after: Seq<node_props_t>,
    node_from: int,
    entry: HsaIoLinkProperties,
    slot: int,
)
    requires
        links_well_formed(before),
        after.len() == before.len(),
        0 <= node_from < before.len(),
        forall|i: int| 0 <= i < before.len() && i != node_from ==> after[i] == #[trigger] before[i],
        after[node_from].link@ == before[node_from].link@.update(slot, entry),
        0 <= slot < before[node_from].link@.len(),
        entry.NodeTo < before.len(),
        entry.NodeTo < 0x80000000,
        entry.Weight <= 0x10000000,
    ensures
        links_well_formed(after),
{
    assert forall|i: int, j: int|
        0 <= i < after.len() && 0 <= j < after[i].link@.len() implies ((#[trigger] after[i].link@[j]).NodeTo
        < after.len() && after[i].link@[j].Weight <= 0x10000000 && after[i].link@[j].NodeTo
        < 0x80000000) by {
        if i == node_from {
            assert(after[i].link@.len() == before[i].link@.len());
            if j != slot {
                assert(after[i].link@[j] == before[i].link@[j]);
            }
        } else {
            assert(after[i] == before[i]);
            assert(after[i].link@[j] == before[i].link@[j]);
        }
    }
}

/// Walk every ordered pair of nodes and record the indirect links the
/// composed queries find, in both directions. Links whose composed weight
/// would exceed any real interconnect are not recorded.
#[verifier::rlimit(100)]
#[verifier::spinoff_prover]
pub fn topology_create_indirect_gpu_links(
    sys_props: &HsaSystemProperties,
    node_props: &mut Vec<node_props_t>,
)
    requires
        old(node_props)@.len() >= sys_props.NumNodes,
        links_well_formed(old(node_props)@),
    ensures
        final(node_props)@.len() == old(node_props)@.len(),
        links_well_formed(final(node_props)@),
{
    let n = sys_props.NumNodes;
    let ghost len0 = node_props@.len();
    let mut i: u32 = 0;
    while i < n
        invariant
            n == sys_props.NumNodes,
            node_props@.len() == len0,
            len0 >= n,
            links_well_formed(node_props@),
        decreases n - i,
    {
        let mut j: u32 = 0;
        while j < n
            invariant
                n == sys_props.NumNodes,
                i < n,
                node_props@.len() == len0,
                len0 >= n,
                links_well_formed(node_props@),
            decreases n - j,
        {
            let (st, weight, hsa_type) = get_indirect_iolink_info(i, j, node_props);
            if matches!(st, HsakmtStatus::HSAKMT_STATUS_SUCCESS) && weight != 0 && weight
                <= 0x10000000 && j < 0x80000000 {
                let ghost before = node_props@;
                let _ = topology_add_io_link_for_node(i, sys_props, node_props, hsa_type, j, weight);
                proof {
                    if node_props@ != before {
                        let entry = HsaIoLinkProperties {
                            IoLinkType: hsa_type,
                            NodeFrom: i,
                            NodeTo: j,
                            Weight: weight,
                        };
                        lemma_links_wf_after_add(
                            before,
                            node_props@,
                            i as int,
                            entry,
                            before[i as int].node.NumIOLinks as int,
                        );
                    }
                }
            }
            let (st, weight, hsa_type) = get_indirect_iolink_info(j, i, node_props);
            if matches!(st, HsakmtStatus::HSAKMT_STATUS_SUCCESS) && weight != 0 && weight
                <= 0x10000000 && i < 0x80000000 {
                let ghost before = node_props@;
                let _ = topology_add_io_link_for_node(j, sys_props, node_props, hsa_type, i, weight);
                proof {
                    if node_props@ != before {
                        let entry = HsaIoLinkProperties {
                            IoLinkType: hsa_type,
                            NodeFrom: j,
                            NodeTo: i,
                            Weight: weight,
                        };
                        lemma_links_wf_after_add(
                            before,
                            node_props@,
                            j as int,
                            entry,
                            before[j as int].node.NumIOLinks as int,
                        );
                    }
                }
            }
            j = j + 1;
        }
        i = i + 1;
    }
}

impl HsakmtGlobals {
    /// The recorded properties of one node.
    pub fn hsakmt_topology_get_node_props(&self, NodeId: u32) -> (r: HsaNodeProperties)
        requires
            (NodeId as int) < self.topology.g_props@.len(),
        ensures
            r == self.topology.g_props@[NodeId as int].node,
    {
        self.topology.g_props[NodeId as usize].node
    }

    /// The recorded io-links of one node.
    pub fn hsakmt_topology_get_iolink_props(&self, NodeId: u32) -> (r: &Vec<HsaIoLinkProperties>)
        requires
            (NodeId as int) < self.topology.g_props@.len(),
        ensures
            r@ == self.topology.g_props@[NodeId as int].link@,
    {
        &self.topology.g_props[NodeId as usize].link
    }

    /// One dGPU node (compute cores and no CPU cores) makes the whole
    /// system count as dGPU.
    pub fn hsakmt_topology_setup_is_dgpu_param(&mut self, props: &HsaNodeProperties)
        ensures
            final(self).hsakmt_is_dgpu == (old(self).hsakmt_is_dgpu || (props.NumCPUCores == 0
                && props.NumFComputeCores > 0)),
            final(self).fmm == old(self).fmm,
            final(self).topology == old(self).topology,
            final(self).version == old(self).version,
            final(self).hsakmt_kfd_open_count == old(self).hsakmt_kfd_open_count,
            final(self).hsakmt_page_size == old(self).hsakmt_page_size,
    {
        if props.NumCPUCores == 0 && props.NumFComputeCores > 0 {
            self.hsakmt_is_dgpu = true;
        }
    }

    /// One dGPU node makes the whole system count as dGPU.
    pub fn hsakmt_topology_setup_is_dgpu_param_v2(
        &mut self,
        _DeviceId: u16,
        NumCPUCores: u32,
        NumFComputeCores: u32,
    )
        ensures
            final(self).hsakmt_is_dgpu == (old(self).hsakmt_is_dgpu || (NumCPUCores == 0
                && NumFComputeCores > 0)),
            final(self).fmm == old(self).fmm,
            final(self).topology == old(self).topology,
            final(self).version == old(self).version,
            final(self).hsakmt_kfd_open_count == old(self).hsakmt_kfd_open_count,
            final(self).hsakmt_page_size == old(self).hsakmt_page_size,
    {
        if NumCPUCores == 0 && NumFComputeCores > 0 {
            self.hsakmt_is_dgpu = true;
        }
    }

    /// Release the topology snapshot.
    pub fn topology_drop_snapshot(&mut self)
        ensures
            final(self).topology.g_props@.len() == 0,
    {
        self.topology.g_props = Vec::new();
    }
}

} // verus!
