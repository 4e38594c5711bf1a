use vstd::prelude::*;

verus! {

/// The first cluster number of the data region.
pub const FIRST_DATA_CLUSTER: u32 = 2;

/// The last cluster number that can hold data.
pub const LAST_DATA_CLUSTER: u32 = 0x0FFF_FFEF;

/// A cluster of a FAT32 file system, named by its number.
#[derive(Debug, Clone, Copy, PartialEq, Eq, Hash, Structural)]
pub struct Cluster(pub u32);

impl From<u32> for Cluster {
    fn from(raw_num: u32) -> (c: Cluster) {
        Cluster(raw_num)
    }
}

impl vstd::std_specs::convert::FromSpecImpl<u32> for Cluster {
    open spec fn obeys_from_spec() -> bool {
        true
    }

    open spec fn from_spec(raw_num: u32) -> Self {
        Cluster(raw_num)
    }
}

impl Cluster {
    /// Whether this cluster is one that can hold data.
    pub open spec fn spec_is_valid(&self) -> bool {
        FIRST_DATA_CLUSTER <= self.0 <= LAST_DATA_CLUSTER
    }

    /// The clusters that can hold data are those numbered 2 through 0x0FFF_FFEF.
    pub proof fn lemma_valid_range(&self)
        ensures
            self.spec_is_valid() <==> 2 <= self.0 <= 0x0FFF_FFEF,
    {
    }

    /// Returns whether this cluster is one that can hold data.
    pub fn is_valid(&self) -> (b: bool)
        ensures
            b == self.spec_is_valid(),
    {
        FIRST_DATA_CLUSTER <= self.0 && self.0 <= LAST_DATA_CLUSTER
    }

    /// Returns this cluster's number.
    pub fn cluster_num(&self) -> (n: u32)
        ensures
            n == self.0,
    {
        self.0
    }

    /// Returns the position of this cluster in the data region, where the
    /// first data cluster is at position 0.
    pub fn cluster_index(&self) -> (i: u32)
        requires
            self.spec_is_valid(),
        ensures
            i == self.0 - FIRST_DATA_CLUSTER,
    {
        self.0 - FIRST_DATA_CLUSTER
    }
}

} // verus!
