use vstd::prelude::*;

use crate::vfat::Cluster;
use crate::vfat::cluster::LAST_DATA_CLUSTER;

verus! {

/// The bits of a FAT entry that hold its value; the top four are reserved.
pub const FAT_ENTRY_MASK: u32 = 0x0FFF_FFFF;

/// The state of a cluster as its FAT entry records it.
#[derive(Debug, Clone, Copy, PartialEq, Eq, Structural)]
pub enum Status {
    /// The FAT entry corresponds to an unused (free) cluster.
    Free,
    /// The FAT entry/cluster is reserved.
    Reserved,
    /// The FAT entry corresponds to a valid data cluster. The next cluster in
    /// the chain is `Cluster`.
    Data(Cluster),
    /// The FAT entry corresponds to a bad (disk failed) cluster.
    Bad,
    /// The FAT entry corresponds to a valid data cluster. The corresponding
    /// cluster is the last in its chain.
    Eoc(u32),
}

/// One entry of the file allocation table, as stored on disk.
#[derive(Debug, Clone, Copy, PartialEq, Eq, Structural)]
pub struct FatEntry(pub u32);

/// The status that an entry whose masked value is `v` records.
pub open spec fn status_of_value(v: u32) -> Status {
    if v == 0 {
        Status::Free
    } else if v == 1 {
        Status::Reserved
    } else if v <= LAST_DATA_CLUSTER {
        Status::Data(Cluster(v))
    } else if v <= 0x0FFF_FFF6 {
        Status::Reserved
    } else if v == 0x0FFF_FFF7 {
        Status::Bad
    } else {
        Status::Eoc(v)
    }
}

/// What a FAT entry records, read from its value with the top four bits
/// cleared: 0 a free cluster, 1 a reserved one, 2 through 0x0FFF_FFEF the
/// next cluster of the chain, 0x0FFF_FFF0 through 0x0FFF_FFF6 reserved,
/// 0x0FFF_FFF7 a bad cluster, and 0x0FFF_FFF8 on the end of a chain.
pub proof fn lemma_entry_status(e: FatEntry)
    ensures
        e.0 % 0x1000_0000 == 0 ==> e.spec_status() == Status::Free,
        e.0 % 0x1000_0000 == 1 ==> e.spec_status() == Status::Reserved,
        2 <= e.0 % 0x1000_0000 <= 0x0FFF_FFEF ==> e.spec_status() == Status::Data(Cluster((e.0 % 0x1000_0000) as u32)),
        0x0FFF_FFF0 <= e.0 % 0x1000_0000 <= 0x0FFF_FFF6 ==> e.spec_status() == Status::Reserved,
        e.0 % 0x1000_0000 == 0x0FFF_FFF7 ==> e.spec_status() == Status::Bad,
        0x0FFF_FFF8 <= e.0 % 0x1000_0000 ==> e.spec_status() == Status::Eoc((e.0 % 0x1000_0000) as u32),
{
}

impl FatEntry {
    /// The value of this entry without its reserved top bits.
    pub open spec fn spec_value(&self) -> u32 {
        (self.0 % 0x1000_0000) as u32
    }

    /// The status this entry records.
    pub open spec fn spec_status(&self) -> Status {
        status_of_value(self.spec_value())
    }

    /// Returns the `Status` of the cluster that `self` represents.
    pub fn status(&self) -> (s: Status)
        ensures
            s == self.spec_status(),
    {
        let raw = self.0;
        let v = raw & FAT_ENTRY_MASK;
        assert(raw & 0x0FFF_FFFF == raw % 0x1000_0000) by (bit_vector);
        if v == 0 {
            Status::Free
        } else if v == 1 {
            Status::Reserved
        } else if v <= LAST_DATA_CLUSTER {
            Status::Data(Cluster(v))
        } else if v <= 0x0FFF_FFF6 {
            Status::Reserved
        } else if v == 0x0FFF_FFF7 {
            Status::Bad
        } else {
            Status::Eoc(v)
        }
    }
}

} // verus!
