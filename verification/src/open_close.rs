//! Process open/close bookkeeping: the open-count state machine and the page
//! size derived from what the OS reports.

#![allow(non_snake_case)]

use crate::globals::HsakmtGlobals;
use crate::hsakmttypes::HsakmtStatus;
use vstd::prelude::*;

verus! {

/// Position of the lowest set bit, counted from 1.
pub fn ffs(n: i32) -> (r: u32)
    requires
        n != 0,
    ensures
        1 <= r <= 32,
        ((n as u32) >> ((r - 1) as u32)) & 1u32 == 1u32,
        forall|j: u32| j < r - 1 ==> #[trigger] ((n as u32) >> j) & 1u32 == 0u32,
{
    let u = n as u32;
    proof {
        vstd::std_specs::bits::axiom_u32_trailing_zeros(u);
        assert(u != 0) by (bit_vector)
            requires
                n != 0,
                u == n as u32,
        ;
    }
    u.trailing_zeros() + 1
}

impl HsakmtGlobals {
    /// Record the page size the OS reported and derive the page shift.
    pub fn init_page_size(&mut self, sc_pagesize: i32)
        requires
            sc_pagesize > 0,
        ensures
            final(self).hsakmt_page_size == sc_pagesize,
            final(self).hsakmt_page_shift + 1 >= 1,
    {
        self.hsakmt_page_size = sc_pagesize;
        self.hsakmt_page_shift = (ffs(sc_pagesize) - 1) as i32;
    }

    /// The open-count step of opening the channel: a process already open
    /// only bumps the count; the first open commits the freshly negotiated
    /// file handle and reports success, leaving the channel bookkeeping to
    /// the embedding.
    pub fn hsaKmtOpenKFD_bookkeeping(&mut self, fd: i32) -> (ret: HsakmtStatus)
        requires
            old(self).hsakmt_kfd_open_count < usize::MAX,
        ensures
            final(self).fmm == old(self).fmm,
            final(self).topology == old(self).topology,
            final(self).version == old(self).version,
            final(self).hsakmt_system_properties_count == old(self).hsakmt_system_properties_count,
            final(self).hsakmt_is_dgpu == old(self).hsakmt_is_dgpu,
            final(self).hsakmt_page_size == old(self).hsakmt_page_size,
            final(self).hsakmt_page_shift == old(self).hsakmt_page_shift,
            final(self).hsakmt_is_svm_api_supported == old(self).hsakmt_is_svm_api_supported,
            final(self).hsakmt_zfb_support == old(self).hsakmt_zfb_support,
            old(self).hsakmt_kfd_open_count != 0 ==> ret
                == HsakmtStatus::HSAKMT_STATUS_KERNEL_ALREADY_OPENED && final(self).hsakmt_kfd_open_count == old(self).hsakmt_kfd_open_count + 1 && final(self).hsakmt_kfd_fd == old(self).hsakmt_kfd_fd,
            old(self).hsakmt_kfd_open_count == 0 ==> ret == HsakmtStatus::HSAKMT_STATUS_SUCCESS
                && final(self).hsakmt_kfd_open_count == 1 && (old(self).hsakmt_kfd_fd < 0 ==> final(self).hsakmt_kfd_fd == fd) && (old(self).hsakmt_kfd_fd >= 0 ==> final(self).hsakmt_kfd_fd
                == old(self).hsakmt_kfd_fd),
    {
        if self.hsakmt_kfd_open_count != 0 {
            self.hsakmt_kfd_open_count = self.hsakmt_kfd_open_count + 1;
            return HsakmtStatus::HSAKMT_STATUS_KERNEL_ALREADY_OPENED;
        }
        if self.hsakmt_kfd_fd < 0 {
            self.hsakmt_kfd_fd = fd;
        }
        self.hsakmt_kfd_open_count = 1;
        HsakmtStatus::HSAKMT_STATUS_SUCCESS
    }

    pub fn hsaKmtCloseKFD(&self) -> (ret: HsakmtStatus)
        ensures
            ret == HsakmtStatus::HSAKMT_STATUS_SUCCESS,
    {
        HsakmtStatus::HSAKMT_STATUS_SUCCESS
    }
}

} // verus!
