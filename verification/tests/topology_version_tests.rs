use hsakmt::globals::{HsakmtGlobals, TopologyGlobals};
use hsakmt::hsakmttypes::{
    HsaIoLinkProperties, HsaNodeProperties, HsaSystemProperties, HsaVersionInfo, HsakmtStatus,
    HSA_ENGINE_ID, HSA_GET_GFX_VERSION_FULL, HSA_IOLINKTYPE,
};
use hsakmt::open_close::ffs;
use hsakmt::topology::{
    find_hsa_gfxip_device, get_direct_iolink_info, get_indirect_iolink_info,
    gpu_get_direct_link_cpu, topology_add_io_link_for_node, topology_create_indirect_gpu_links,
    topology_get_free_io_link_slot_for_node, HSA_GET_GFX_VERSION_MAJOR, HSA_GET_GFX_VERSION_MINOR,
    HSA_GET_GFX_VERSION_STEP,
};
use hsakmt::topology_utils::{KfdTopologyNode, KfdTopologyNodeProperties, SysDevicesVirtualKfd};
use hsakmt::version::KfdIoctlGetVersionArgs;

fn node_with_links(gpu: u32, links: Vec<HsaIoLinkProperties>) -> hsakmt::hsakmttypes::node_props_t {
    let mut node = HsaNodeProperties::zeroed();
    node.KFDGpuID = gpu;
    node.NumIOLinks = links.len() as u32;
    hsakmt::hsakmttypes::node_props_t { node, link: links, mem: Vec::new() }
}

#[test]
fn test_hsakmt_get_version_not_initialized() {
    let hsakmt = HsakmtGlobals::new();

    let version_info = hsakmt.hsaKmtGetVersion();
    println!("{:?}", version_info);

    assert_eq!(
        version_info,
        HsaVersionInfo { KernelInterfaceMajorVersion: 0, KernelInterfaceMinorVersion: 0 }
    );
}

#[test]
fn test_version_negotiation() {
    let mut g = HsakmtGlobals::new();
    let st = g.hsakmt_init_kfd_version(false, KfdIoctlGetVersionArgs {
        major_version: 1,
        minor_version: 14,
    });
    assert_eq!(st, HsakmtStatus::HSAKMT_STATUS_ERROR);
    assert_eq!(g.hsaKmtGetVersion().KernelInterfaceMajorVersion, 0);

    let st = g.hsakmt_init_kfd_version(true, KfdIoctlGetVersionArgs {
        major_version: 2,
        minor_version: 0,
    });
    assert_eq!(st, HsakmtStatus::HSAKMT_STATUS_DRIVER_MISMATCH);
    assert_eq!(g.hsaKmtGetVersion().KernelInterfaceMajorVersion, 2);

    let st = g.hsakmt_init_kfd_version(true, KfdIoctlGetVersionArgs {
        major_version: 1,
        minor_version: 14,
    });
    assert_eq!(st, HsakmtStatus::HSAKMT_STATUS_SUCCESS);
    assert_eq!(g.hsaKmtGetVersion().KernelInterfaceMinorVersion, 14);
}

#[test]
fn test_open_bookkeeping_state_machine() {
    let mut g = HsakmtGlobals::new();
    assert_eq!(g.hsaKmtOpenKFD_bookkeeping(5), HsakmtStatus::HSAKMT_STATUS_SUCCESS);
    assert_eq!(g.hsakmt_kfd_fd, 5);
    assert_eq!(g.hsakmt_kfd_open_count, 1);
    assert_eq!(g.hsaKmtOpenKFD_bookkeeping(9), HsakmtStatus::HSAKMT_STATUS_KERNEL_ALREADY_OPENED);
    assert_eq!(g.hsakmt_kfd_fd, 5);
    assert_eq!(g.hsakmt_kfd_open_count, 2);
    assert_eq!(g.hsaKmtCloseKFD(), HsakmtStatus::HSAKMT_STATUS_SUCCESS);
}

#[test]
fn test_ffs_and_page_size() {
    assert_eq!(ffs(1), 1);
    assert_eq!(ffs(4096), 13);
    assert_eq!(ffs(6), 2);
    assert_eq!(ffs(i32::MIN), 32);
    let mut g = HsakmtGlobals::new();
    g.init_page_size(4096);
    assert_eq!(g.hsakmt_page_size, 4096);
    assert_eq!(g.hsakmt_page_shift, 12);
    assert_eq!(g.PAGE_SIZE(), 4096);
}

#[test]
fn test_gfx_version_helpers() {
    let e = HSA_ENGINE_ID { Major: 9, Minor: 0, Stepping: 6 };
    let full = HSA_GET_GFX_VERSION_FULL(&e);
    assert_eq!(full, 90006);
    assert_eq!(HSA_GET_GFX_VERSION_MAJOR(full), 9);
    assert_eq!(HSA_GET_GFX_VERSION_MINOR(906), 9);
    assert_eq!(HSA_GET_GFX_VERSION_STEP(906), 9);
}

#[test]
fn test_find_hsa_gfxip_device() {
    let d = find_hsa_gfxip_device(0x6920, 8).expect("a Tonga row exists");
    assert_eq!(d.device_id, 0x6920);
    assert_eq!((d.major, d.minor, d.stepping), (8, 0, 2));
    assert!(find_hsa_gfxip_device(0x6920, 11).is_none());
    assert!(find_hsa_gfxip_device(0xffff, 8).is_none());
}

#[test]
fn test_direct_iolink_queries() {
    let links = vec![
        HsaIoLinkProperties {
            IoLinkType: HSA_IOLINKTYPE::HSA_IOLINK_TYPE_XGMI,
            NodeFrom: 0,
            NodeTo: 2,
            Weight: 15,
        },
        HsaIoLinkProperties {
            IoLinkType: HSA_IOLINKTYPE::HSA_IOLINKTYPE_PCIEXPRESS,
            NodeFrom: 0,
            NodeTo: 1,
            Weight: 20,
        },
    ];
    let props = vec![node_with_links(0x77, links), node_with_links(0, Vec::new())];

    assert_eq!(gpu_get_direct_link_cpu(0, &props), 1);
    // A CPU node (no GPU id) has no direct-link CPU.
    assert_eq!(gpu_get_direct_link_cpu(1, &props), -1);

    let (st, w, t) = get_direct_iolink_info(0, 2, &props);
    assert_eq!(st, HsakmtStatus::HSAKMT_STATUS_SUCCESS);
    assert_eq!(w, 15);
    assert_eq!(t, HSA_IOLINKTYPE::HSA_IOLINK_TYPE_XGMI);
    let (st, _, _) = get_direct_iolink_info(0, 9, &props);
    assert_eq!(st, HsakmtStatus::HSAKMT_STATUS_INVALID_PARAMETER);
    let (st, _, _) = get_direct_iolink_info(1, 0, &props);
    assert_eq!(st, HsakmtStatus::HSAKMT_STATUS_INVALID_NODE_UNIT);
}

#[test]
fn test_add_io_link_for_node() {
    let sys = HsaSystemProperties { NumNodes: 3, PlatformOem: 0, PlatformId: 0, PlatformRev: 0 };
    let empty_link = HsaIoLinkProperties {
        IoLinkType: HSA_IOLINKTYPE::HSA_IOLINKTYPE_UNDEFINED,
        NodeFrom: 0,
        NodeTo: 0,
        Weight: 0,
    };
    let mut node = node_with_links(1, vec![empty_link, empty_link]);
    node.node.NumIOLinks = 0;
    let mut props = vec![node, node_with_links(0, Vec::new()), node_with_links(0, Vec::new())];

    assert_eq!(topology_get_free_io_link_slot_for_node(0, &sys, &props), Some(0));
    // A node without a link table has no free slot.
    assert_eq!(topology_get_free_io_link_slot_for_node(1, &sys, &props), None);
    // An unknown node id has no free slot.
    assert_eq!(topology_get_free_io_link_slot_for_node(9, &sys, &props), None);

    let st = topology_add_io_link_for_node(
        0,
        &sys,
        &mut props,
        HSA_IOLINKTYPE::HSA_IOLINKTYPE_PCIEXPRESS,
        2,
        11,
    );
    assert_eq!(st, HsakmtStatus::HSAKMT_STATUS_SUCCESS);
    assert_eq!(props[0].node.NumIOLinks, 1);
    assert_eq!(props[0].link[0].NodeTo, 2);
    assert_eq!(props[0].link[0].Weight, 11);

    let st = topology_add_io_link_for_node(
        1,
        &sys,
        &mut props,
        HSA_IOLINKTYPE::HSA_IOLINKTYPE_PCIEXPRESS,
        0,
        9,
    );
    assert_eq!(st, HsakmtStatus::HSAKMT_STATUS_NO_MEMORY);
}

#[test]
fn test_topology_globals_and_kfd_snapshot() {
    let t = TopologyGlobals::new();
    assert_eq!(t.g_props.len(), 0);
    assert_eq!(t.num_sysfs_nodes, 0);

    let mut kfd = SysDevicesVirtualKfd::new();
    assert_eq!(kfd.get_nodes().len(), 0);
    kfd.push_node(KfdTopologyNode {
        node_id: 0,
        gpu_id: 777,
        properties: KfdTopologyNodeProperties::zeroed(),
    });
    assert_eq!(kfd.get_nodes().len(), 1);
    assert_eq!(kfd.get_nodes()[0].gpu_id, 777);
}

#[test]
fn test_is_dgpu_and_svm_needed() {
    let mut g = HsakmtGlobals::new();
    let mut props = HsaNodeProperties::zeroed();
    props.NumCPUCores = 8;
    props.NumFComputeCores = 0;
    g.hsakmt_topology_setup_is_dgpu_param(&props);
    assert!(!g.hsakmt_is_dgpu);
    g.hsakmt_topology_setup_is_dgpu_param_v2(0x1234, 0, 64);
    assert!(g.hsakmt_is_dgpu);

    let e9 = HSA_ENGINE_ID { Major: 9, Minor: 0, Stepping: 0 };
    let e8 = HSA_ENGINE_ID { Major: 8, Minor: 0, Stepping: 3 };
    assert!(g.hsakmt_topology_is_svm_needed(&e8));
    let g2 = HsakmtGlobals::new();
    assert!(g2.hsakmt_topology_is_svm_needed(&e9));
    assert!(!g2.hsakmt_topology_is_svm_needed(&e8));
}

fn pcie(from: u32, to: u32, w: u32) -> HsaIoLinkProperties {
    HsaIoLinkProperties {
        IoLinkType: HSA_IOLINKTYPE::HSA_IOLINKTYPE_PCIEXPRESS,
        NodeFrom: from,
        NodeTo: to,
        Weight: w,
    }
}

fn fb_public_node(gpu: u32, links: Vec<HsaIoLinkProperties>) -> hsakmt::hsakmttypes::node_props_t {
    let mut n = node_with_links(gpu, links);
    n.node.NumMemoryBanks = 1;
    n.mem.push(hsakmt::hsakmttypes::HsaMemoryProperties {
        HeapType: hsakmt::hsakmttypes::HSA_HEAPTYPE::HSA_HEAPTYPE_FRAME_BUFFER_PUBLIC,
        SizeInBytes: 1 << 30,
    });
    n
}

#[test]
fn test_indirect_iolink_gpu_cpu_gpu() {
    // Nodes: 0 = GPU, 1 = CPU, 2 = GPU; both GPUs hang off the one CPU.
    let props = vec![
        fb_public_node(0x70, vec![pcie(0, 1, 10)]),
        node_with_links(0, vec![pcie(1, 0, 10), pcie(1, 2, 12)]),
        fb_public_node(0x71, vec![pcie(2, 1, 12)]),
    ];
    let (st, w, t) = get_indirect_iolink_info(0, 2, &props);
    assert_eq!(st, HsakmtStatus::HSAKMT_STATUS_SUCCESS);
    assert_eq!(w, 10 + 12);
    assert_eq!(t, HSA_IOLINKTYPE::HSA_IOLINKTYPE_PCIEXPRESS);

    // The same node is no indirect pair of itself.
    let (st, _, _) = get_indirect_iolink_info(0, 0, &props);
    assert_eq!(st, HsakmtStatus::HSAKMT_STATUS_INVALID_PARAMETER);
    // Two CPUs have no indirect GPU link.
    let cpus = vec![node_with_links(0, Vec::new()), node_with_links(0, Vec::new())];
    let (st, _, _) = get_indirect_iolink_info(0, 1, &cpus);
    assert_eq!(st, HsakmtStatus::HSAKMT_STATUS_INVALID_NODE_UNIT);
}

#[test]
fn test_indirect_iolink_qpi_across_sockets_is_refused() {
    // GPU 0 - CPU 1 - (QPI, heavy) - CPU 2 - GPU 3.
    let qpi = |from: u32, to: u32, w: u32| HsaIoLinkProperties {
        IoLinkType: HSA_IOLINKTYPE::HSA_IOLINK_TYPE_QPI_1_1,
        NodeFrom: from,
        NodeTo: to,
        Weight: w,
    };
    let props = vec![
        fb_public_node(0x70, vec![pcie(0, 1, 10)]),
        node_with_links(0, vec![pcie(1, 0, 10), qpi(1, 2, 40)]),
        node_with_links(0, vec![qpi(2, 1, 40), pcie(2, 3, 11)]),
        fb_public_node(0x71, vec![pcie(3, 2, 11)]),
    ];
    let (st, _, t) = get_indirect_iolink_info(0, 3, &props);
    assert_eq!(st, HsakmtStatus::HSAKMT_STATUS_NOT_SUPPORTED);
    assert_eq!(t, HSA_IOLINKTYPE::HSA_IOLINK_TYPE_QPI_1_1);
}

#[test]
fn test_create_indirect_gpu_links() {
    let sys = HsaSystemProperties { NumNodes: 3, PlatformOem: 0, PlatformId: 0, PlatformRev: 0 };
    let empty = HsaIoLinkProperties {
        IoLinkType: HSA_IOLINKTYPE::HSA_IOLINKTYPE_UNDEFINED,
        NodeFrom: 0,
        NodeTo: 0,
        Weight: 0,
    };
    let mut n0 = fb_public_node(0x70, vec![pcie(0, 1, 10), empty]);
    n0.node.NumIOLinks = 1;
    let mut n1 = node_with_links(0, vec![pcie(1, 0, 10), pcie(1, 2, 12), empty]);
    n1.node.NumIOLinks = 2;
    let mut n2 = fb_public_node(0x71, vec![pcie(2, 1, 12), empty]);
    n2.node.NumIOLinks = 1;
    let mut props = vec![n0, n1, n2];
    topology_create_indirect_gpu_links(&sys, &mut props);
    // Each GPU gained the composed link to the other.
    assert_eq!(props[0].node.NumIOLinks, 2);
    assert_eq!(props[0].link[1].NodeTo, 2);
    assert_eq!(props[0].link[1].Weight, 22);
    assert_eq!(props[2].node.NumIOLinks, 2);
    assert_eq!(props[2].link[1].NodeTo, 0);
    assert_eq!(props[2].link[1].Weight, 22);
}
