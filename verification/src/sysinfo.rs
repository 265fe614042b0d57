//! What the scan modules learn about the machine, as plain values.
use vstd::prelude::*;

verus! {

/// General facts about the machine.
#[derive(Debug, Clone, Default)]
pub struct SystemInfoData {
    pub kernel_release: String,
    pub kernel_version: String,
    pub hostname: String,
    pub os_name: String,
    pub cpu_model: String,
    pub cpu_count: u32,
    pub total_memory_kb: u64,
    pub uptime_seconds: u64,
    pub architecture: String,
}

/// A loaded kernel module.
#[derive(Debug, Clone)]
pub struct KernelModuleInfo {
    pub name: String,
    pub size: u64,
    pub refcount: u32,
    pub dependencies: Vec<String>,
    pub address: u64,
}

/// A shared library mapped into the process.
#[derive(Debug, Clone)]
pub struct LibraryInfo {
    pub name: String,
    pub path: String,
    pub base_address: u64,
    pub size: u64,
}

/// A mounted filesystem.
#[derive(Debug, Clone)]
pub struct MountInfo {
    pub device: String,
    pub mount_point: String,
    pub fstype: String,
    pub options: String,
}

/// Block and PCI devices.
#[derive(Debug, Clone, Default)]
pub struct DeviceList {
    pub block_devices: Vec<BlockDeviceInfo>,
    pub pci_devices: Vec<PciDeviceInfo>,
}

/// A block device.
#[derive(Debug, Clone)]
pub struct BlockDeviceInfo {
    pub name: String,
    pub size_sectors: u64,
    pub removable: bool,
}

/// A PCI device.
#[derive(Debug, Clone)]
pub struct PciDeviceInfo {
    pub slot: String,
    pub vendor: String,
    pub device: String,
    pub driver: String,
}

/// A system service.
#[derive(Debug, Clone)]
pub struct ServiceInfo {
    pub name: String,
    pub state: String,
    pub enabled: bool,
}

} // verus!
