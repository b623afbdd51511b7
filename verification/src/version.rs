//! Version negotiation bookkeeping: what the control channel reported and
//! how the process judges it.

#![allow(non_snake_case)]

use crate::globals::HsakmtGlobals;
use crate::hsakmttypes::{HsaVersionInfo, HsakmtStatus};
use vstd::prelude::*;

verus! {

/// The answer of the control channel's version request.
#[derive(Debug, Clone, Copy, PartialEq, Eq, Structural)]
pub struct KfdIoctlGetVersionArgs {
    pub major_version: u32,
    pub minor_version: u32,
}

impl HsakmtGlobals {
    pub fn hsaKmtGetVersion(&self) -> (r: HsaVersionInfo)
        ensures
            r == self.version.kfd,
    {
        self.version.kfd
    }

    /// Judge and record what the version request answered. A failed request
    /// (`ok` false) leaves the recorded version unchanged and is an error; a
    /// major version other than 1 is a driver mismatch, though the answer is
    /// still recorded.
    pub fn hsakmt_init_kfd_version(&mut self, ok: bool, args: KfdIoctlGetVersionArgs) -> (ret:
        HsakmtStatus)
        ensures
            !ok ==> ret == HsakmtStatus::HSAKMT_STATUS_ERROR && *final(self) == *old(self),
            ok ==> final(self).version.kfd.KernelInterfaceMajorVersion == args.major_version
                && final(self).version.kfd.KernelInterfaceMinorVersion == args.minor_version,
            ok && args.major_version != 1 ==> ret == HsakmtStatus::HSAKMT_STATUS_DRIVER_MISMATCH,
            ok && args.major_version == 1 ==> ret == HsakmtStatus::HSAKMT_STATUS_SUCCESS,
    {
        if !ok {
            return HsakmtStatus::HSAKMT_STATUS_ERROR;
        }
        self.version.kfd.KernelInterfaceMajorVersion = args.major_version;
        self.version.kfd.KernelInterfaceMinorVersion = args.minor_version;
        if args.major_version != 1 {
            return HsakmtStatus::HSAKMT_STATUS_DRIVER_MISMATCH;
        }
        HsakmtStatus::HSAKMT_STATUS_SUCCESS
    }
}

} // verus!
