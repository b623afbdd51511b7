//! Plain records of what the sysfs topology collaborator reports per node.
//! Reading and parsing the sysfs files is I/O and lives with the embedding;
//! the records themselves are ordinary values.

use vstd::prelude::*;

verus! {

/// The per-node property file, one optional entry per known property name.
#[derive(Debug, Clone, Copy, PartialEq, Eq, Structural)]
pub struct KfdTopologyNodeProperties {
    pub cpu_cores_count: Option<usize>,
    pub simd_count: Option<usize>,
    pub mem_banks_count: Option<usize>,
    pub io_links_count: Option<usize>,
    pub capability: Option<usize>,
    pub device_id: Option<usize>,
    pub local_mem_size: Option<usize>,
    pub drm_render_minor: Option<usize>,
    pub hive_id: Option<usize>,
    pub gfx_target_version: Option<usize>,
}

impl KfdTopologyNodeProperties {
    pub fn zeroed() -> (r: KfdTopologyNodeProperties)
        ensures
            r.cpu_cores_count is None,
            r.device_id is None,
            r.drm_render_minor is None,
    {
        KfdTopologyNodeProperties {
            cpu_cores_count: None,
            simd_count: None,
            mem_banks_count: None,
            io_links_count: None,
            capability: None,
            device_id: None,
            local_mem_size: None,
            drm_render_minor: None,
            hive_id: None,
            gfx_target_version: None,
        }
    }
}

#[derive(Debug, Clone, Copy, PartialEq, Eq, Structural)]
pub struct KfdTopologyNode {
    pub node_id: usize,
    pub gpu_id: usize,
    pub properties: KfdTopologyNodeProperties,
}

/// The snapshot of `/sys/devices/virtual/kfd`: platform identity and the
/// node list, as loaded by the embedding.
#[derive(Debug, Clone)]
pub struct SysDevicesVirtualKfd {
    pub platform_oem: u64,
    pub platform_id: u64,
    pub platform_rev: u64,
    pub nodes: Vec<KfdTopologyNode>,
}

impl SysDevicesVirtualKfd {
    /// An empty snapshot; the embedding fills it from sysfs.
    pub fn new() -> (r: Self)
        ensures
            r.platform_oem == 0,
            r.platform_id == 0,
            r.platform_rev == 0,
            r.nodes@.len() == 0,
    {
        SysDevicesVirtualKfd { platform_oem: 0, platform_id: 0, platform_rev: 0, nodes: Vec::new() }
    }

    pub fn get_nodes(&self) -> (r: &Vec<KfdTopologyNode>)
        ensures
            r == &self.nodes,
    {
        &self.nodes
    }

    /// Record one node of the snapshot.
    pub fn push_node(&mut self, node: KfdTopologyNode)
        ensures
            final(self).nodes@ == old(self).nodes@.push(node),
            final(self).platform_oem == old(self).platform_oem,
            final(self).platform_id == old(self).platform_id,
            final(self).platform_rev == old(self).platform_rev,
    {
        self.nodes.push(node);
    }
}

} // verus!
