//! The disk record shared by every platform and its risk class.
use vstd::prelude::*;

verus! {

/// A whole physical disk that the user could write to.
#[derive(Debug, Clone)]
pub struct Disk {
    /// Short, stable identifier shown to the user and accepted on the CLI.
    /// Linux: `nvme0n1` / `sda`. macOS: `disk4`. Windows: `2` (disk number).
    pub id: String,
    /// The path passed to the OS to open the raw device for I/O.
    /// Linux: `/dev/nvme0n1`. macOS: `/dev/rdisk4`. Windows: `\\.\PhysicalDrive2`.
    pub raw_path: String,
    /// Human-friendly model/product string, if the OS exposed one.
    pub model: String,
    /// Capacity in bytes (0 if unknown).
    pub size: u64,
    /// Connection bus as reported by the OS (e.g. "USB", "NVMe", "SATA").
    pub bus: String,
    /// Whether the OS considers the media removable/external.
    pub removable: bool,
    /// Whether the OS considers the disk an internal/built-in device.
    pub internal: bool,
    /// True if this disk currently holds the running operating system or a
    /// mounted system volume. Writing here would brick the user's computer.
    pub system: bool,
}

/// A disk as plain values: the views of its strings and its numbers.
pub struct DiskView {
    pub id: Seq<char>,
    pub raw_path: Seq<char>,
    pub model: Seq<char>,
    pub size: u64,
    pub bus: Seq<char>,
    pub removable: bool,
    pub internal: bool,
    pub system: bool,
}

impl View for Disk {
    type V = DiskView;

    open spec fn view(&self) -> DiskView {
        DiskView {
            id: self.id@,
            raw_path: self.raw_path@,
            model: self.model@,
            size: self.size,
            bus: self.bus@,
            removable: self.removable,
            internal: self.internal,
            system: self.system,
        }
    }
}

/// The views of a list of disks.
pub open spec fn disk_views(disks: Seq<Disk>) -> Seq<DiskView> {
    disks.map_values(|d: Disk| d@)
}

/// How dangerous it is to write to a disk.
#[derive(Debug, Clone, Copy, PartialEq, Eq, Structural)]
pub enum Risk {
    /// Holds the OS and must never be touched.
    System,
    /// Built-in disk, probably not the PS5 drive; require an explicit override.
    Internal,
    /// External/removable, the expected place for a PS5 drive in a USB case.
    Removable,
}

/// The risk class of a disk with these flags: the system flag wins, then an
/// internal disk that is not removable, and everything else is removable.
pub open spec fn risk_of(system: bool, internal: bool, removable: bool) -> Risk {
    if system {
        Risk::System
    } else if internal && !removable {
        Risk::Internal
    } else {
        Risk::Removable
    }
}

impl Disk {
    /// A one-line risk classification used by both front-ends.
    pub fn risk(&self) -> (r: Risk)
        ensures
            r == risk_of(self.system, self.internal, self.removable),
    {
        if self.system {
            Risk::System
        } else if self.internal && !self.removable {
            Risk::Internal
        } else {
            Risk::Removable
        }
    }
}


/// The risk classes: a disk that holds the running system is a system disk
/// whatever else is true of it; otherwise a built-in disk that is not
/// removable is internal; every other disk counts as removable.
pub proof fn lemma_risk_classes(system: bool, internal: bool, removable: bool)
    ensures
        system ==> risk_of(system, internal, removable) == Risk::System,
        !system && internal && !removable ==> risk_of(system, internal, removable)
            == Risk::Internal,
        !system && (!internal || removable) ==> risk_of(system, internal, removable)
            == Risk::Removable,
{
}

} // verus!
