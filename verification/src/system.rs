//! Figures of the machine, as far as they are whole numbers.

use crate::paths::{chars_of, same_chars, separator};
use vstd::prelude::*;

verus! {

/// A mounted disk, as the operating system reports it.
#[derive(Debug)]
pub struct DiskInfo {
    pub mount_point: String,
    pub total_space: u64,
    pub available_space: u64,
}

/// The bytes in use and the size of a disk: what is not available is in use.
pub open spec fn usage_of(disk: DiskInfo) -> (u64, u64) {
    (
        if disk.total_space >= disk.available_space {
            (disk.total_space - disk.available_space) as u64
        } else {
            0
        },
        disk.total_space,
    )
}

/// The bytes in use and the size of the first disk that is mounted at `/`; zero for both
/// where there is none.
pub open spec fn root_usage(disks: Seq<DiskInfo>) -> (u64, u64)
    decreases disks.len(),
{
    if disks.len() == 0 {
        (0, 0)
    } else if disks[0].mount_point@ == seq![separator()] {
        usage_of(disks[0])
    } else {
        root_usage(disks.drop_first())
    }
}

/// The bytes in use and the size of the disk that holds the root of the file system.
pub fn root_disk_stats(disks: &Vec<DiskInfo>) -> (usage: (u64, u64))
    ensures
        usage == root_usage(disks@),
{
    proof {
        reveal_strlit("/");
        assert("/"@ =~= seq![separator()]);
    }
    let root = chars_of("/");
    let mut i: usize = 0;
    assert(disks@.skip(0) =~= disks@);
    while i < disks.len()
        invariant
            i <= disks@.len(),
            root@ == seq![separator()],
            root_usage(disks@) == root_usage(disks@.skip(i as int)),
        decreases disks@.len() - i,
    {
        let disk = &disks[i];
        assert(disks@.skip(i as int)[0] == *disk);
        let mount = chars_of(disk.mount_point.as_str());
        if same_chars(&mount, &root) {
            let used: u64 = if disk.total_space >= disk.available_space {
                disk.total_space - disk.available_space
            } else {
                0
            };
            return (used, disk.total_space);
        }
        assert(disks@.skip(i as int).drop_first() =~= disks@.skip(i as int + 1));
        i += 1;
    }
    (0, 0)
}

} // verus!
