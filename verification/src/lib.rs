//! Core logic of the PS5 drive enabler: which disks may be written, how the
//! 2 MiB enabler image is checked, written in chunks and read back, and how
//! the platforms' disk listings are turned into `Disk` records.

pub mod cli;
pub mod disk;
pub mod error;
pub mod flash;
pub mod image;
pub mod platform;
pub mod text;
pub mod wizard;

use vstd::prelude::*;
use crate::disk::Disk;
use crate::error::{Error, Result};
use crate::text::{push_str, trim, trim_str};

verus! {

/// Whether the disk `d` is the one named by `needle`: its short id, its raw
/// path, or `/dev/` followed by its id.
pub open spec fn names_disk(d: Disk, needle: Seq<char>) -> bool {
    ||| d.id@ == needle
    ||| d.raw_path@ == needle
    ||| "/dev/"@ + d.id@ == needle
}

/// Find a disk by its short id (`disk4`, `nvme0n1`, `2`) or raw path among
/// the listed `disks`. Surrounding white space in `id_or_path` is ignored; the
/// first disk that matches is returned.
pub fn find_disk(disks: Vec<Disk>, id_or_path: &str) -> (r: Result<Disk>)
    ensures
        r is Ok <==> exists|i: int|
            0 <= i < disks@.len() && names_disk(#[trigger] disks@[i], trim(id_or_path@)),
        r matches Ok(d) ==> exists|i: int|
            0 <= i < disks@.len() && d == disks@[i] && names_disk(d, trim(id_or_path@)) && forall|
                j: int,
            |
                0 <= j < i ==> !names_disk(#[trigger] disks@[j], trim(id_or_path@)),
        r matches Err(e) ==> (e matches Error::DeviceNotFound(m) && m@ == trim(id_or_path@)),
{
    let needle = trim_str(id_or_path);
    let ghost all = disks@;
    let mut list = disks;
    let mut i: usize = 0;
    while i < list.len()
        invariant
            list@ == all,
            all == disks@,
            needle@ == trim(id_or_path@),
            i <= disks@.len(),
            forall|j: int| 0 <= j < i ==> !names_disk(#[trigger] all[j], needle@),
        decreases list.len() - i,
    {
        let d = &list[i];
        let mut dev_path = String::from_str("/dev/");
        push_str(&mut dev_path, d.id.as_str());
        if d.id == needle || d.raw_path == needle || dev_path == needle {
            assert(names_disk(all[i as int], needle@));
            let found = list.remove(i);
            return Ok(found);
        }
        i = i + 1;
    }
    Err(Error::DeviceNotFound(needle))
}

} // verus!

