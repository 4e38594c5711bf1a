use vstd::prelude::*;

use crate::bytes::{concat, copy_into, uniform_pieces, lemma_concat_congruent, lemma_concat_index, lemma_concat_len, lemma_concat_subrange, le_u16, le_u32, read_u32_le};
use crate::io_error::{io_error, io_error_of, IoErrorKind};
use crate::mbr::{MasterBootRecord, MBR_SIZE, spec_first_vfat_partition, spec_partitions};
use crate::traits::BlockDevice;
use crate::vfat::ebpb::EBPB_SIZE;
use crate::vfat::{BiosParameterBlock, Cluster, Error, FatEntry, Status};

verus! {

/// Message of the error for a disk without a FAT32 partition.
pub const NO_VFAT_PARTITION: &'static str = "cannot find first vfat partition";

/// Message of the error for a logical sector size that the device cannot serve.
pub const UNSUPPORTED_SECTOR_SIZE: &'static str = "unsupported logical sector size";

/// Message of the error for a cluster that cannot hold data.
pub const INVALID_CLUSTER: &'static str = "Invalid cluster number";

/// Message of the error for a FAT entry that does not name a next cluster.
pub const INVALID_NEXT_CLUSTER: &'static str = "Invalid next cluster number";

/// Message of the error for a device sector that was not read whole.
pub const SHORT_SECTOR_READ: &'static str = "unable to read a whole sector";

/// Message of the error for a cluster chain that never reaches its end.
pub const ENDLESS_CHAIN: &'static str = "cluster chain does not end";

/// Size in bytes of one FAT entry.
pub const FAT_ENTRY_SIZE: u64 = 4;

/// Bound on the sector numbers of a mounted file system: each is below it.
pub const SECTOR_LIMIT: u64 = 0x400_0000_0000;

/// Number of clusters that can hold data; a chain longer than this repeats a cluster.
pub const DATA_CLUSTER_COUNT: u32 = 0x0FFF_FFEE;

/// Sector `s` brought to `n` bytes: cut, or padded with zeros where the
/// device holds fewer.
pub open spec fn fit(s: Seq<u8>, n: nat) -> Seq<u8> {
    Seq::new(n, |i: int| if i < s.len() { s[i] } else { 0u8 })
}

/// What the FAT entry `e` says of the cluster after the one it belongs to.
pub open spec fn next_result(e: FatEntry) -> Result<Option<Cluster>, std::io::Error> {
    match e.spec_status() {
        Status::Eoc(_) => Ok(None),
        Status::Data(next) => if next.spec_is_valid() {
            Ok(Some(next))
        } else {
            Err(io_error_of(IoErrorKind::InvalidInput, INVALID_NEXT_CLUSTER@))
        },
        _ => Err(io_error_of(IoErrorKind::InvalidData, INVALID_NEXT_CLUSTER@)),
    }
}

/// What following a FAT entry gives, read from its value with the top four
/// bits cleared: the next cluster for 2 through 0x0FFF_FFEF, the end of the
/// chain from 0x0FFF_FFF8 on, and an error otherwise: `InvalidData` for a
/// free, reserved or bad cluster.
pub proof fn lemma_next_result(e: FatEntry)
    ensures
        2 <= e.0 % 0x1000_0000 <= 0x0FFF_FFEF ==> next_result(e) == Ok::<Option<Cluster>, std::io::Error>(
            Some(Cluster((e.0 % 0x1000_0000) as u32)),
        ),
        0x0FFF_FFF8 <= e.0 % 0x1000_0000 ==> next_result(e) == Ok::<Option<Cluster>, std::io::Error>(None),
        e.0 % 0x1000_0000 < 2 || 0x0FFF_FFF0 <= e.0 % 0x1000_0000 <= 0x0FFF_FFF7 ==> next_result(e)
            == Err::<Option<Cluster>, std::io::Error>(io_error_of(IoErrorKind::InvalidData, INVALID_NEXT_CLUSTER@)),
{
    crate::vfat::fat::lemma_entry_status(e);
}

/// Returns what the FAT entry `entry` says of the cluster that follows the
/// one it belongs to: `None` at the end of a chain, else the next cluster.
///
/// # Errors
///
/// `InvalidInput` if the entry names a cluster that cannot hold data, and
/// `InvalidData` if the entry marks its cluster free, reserved or bad.
pub fn next_from_entry(entry: FatEntry) -> (r: Result<Option<Cluster>, std::io::Error>)
    ensures
        r == next_result(entry),
{
    match entry.status() {
        Status::Eoc(_) => Ok(None),
        Status::Data(next_cluster) => {
            if !next_cluster.is_valid() {
                Err(io_error(IoErrorKind::InvalidInput, INVALID_NEXT_CLUSTER))
            } else {
                Ok(Some(next_cluster))
            }
        },
        _ => Err(io_error(IoErrorKind::InvalidData, INVALID_NEXT_CLUSTER)),
    }
}

/// Returns the sector at which the first FAT32 partition of `mbr` starts.
///
/// # Errors
///
/// `NotFound` if `mbr` has no FAT32 partition.
pub fn partition_start(mbr: &MasterBootRecord) -> (r: Result<u64, Error>)
    ensures
        match spec_first_vfat_partition(mbr.partitions@) {
            Some(s) => r == Ok::<u64, Error>(s as u64),
            None => r == Err::<u64, Error>(
                Error::Io(io_error_of(IoErrorKind::NotFound, NO_VFAT_PARTITION@)),
            ),
        },
{
    match mbr.first_vfat_partition() {
        Some(sector) => Ok(sector as u64),
        None => Err(Error::Io(io_error(IoErrorKind::NotFound, NO_VFAT_PARTITION))),
    }
}

/// Whether logical sectors of `bytes_per_sector` bytes can be served by a
/// device whose sectors hold `device_sector_size` bytes, as `check_sector_size`
/// decides it.
pub open spec fn supported_sector_size(bytes_per_sector: u16, device_sector_size: u64) -> bool {
    bytes_per_sector != 0 && (bytes_per_sector as nat) % (device_sector_size as nat) == 0
}

/// Checks that logical sectors of `bytes_per_sector` bytes are made of whole
/// device sectors of `device_sector_size` bytes.
///
/// # Errors
///
/// `Other` if `bytes_per_sector` is zero or not a multiple of the device's.
pub fn check_sector_size(bytes_per_sector: u16, device_sector_size: u64) -> (r: Result<(), Error>)
    requires
        0 < device_sector_size,
    ensures
        supported_sector_size(bytes_per_sector, device_sector_size) ==> r is Ok,
        !supported_sector_size(bytes_per_sector, device_sector_size) ==> r == Err::<(), Error>(
            Error::Io(io_error_of(IoErrorKind::Other, UNSUPPORTED_SECTOR_SIZE@)),
        ),
{
    if bytes_per_sector == 0 || (bytes_per_sector as u64) % device_sector_size != 0 {
        return Err(Error::Io(io_error(IoErrorKind::Other, UNSUPPORTED_SECTOR_SIZE)));
    }
    Ok(())
}

/// Whether `after` is `before` with its first `q` bytes replaced by the bytes
/// of `data` from `offset` on, and the rest left as it was.
pub open spec fn copied_prefix(data: Seq<u8>, offset: int, before: Seq<u8>, after: Seq<u8>, q: int) -> bool {
    &&& 0 <= q <= before.len()
    &&& 0 <= offset
    &&& offset + q <= data.len()
    &&& after.len() == before.len()
    &&& after.take(q) == data.subrange(offset, offset + q)
    &&& after.skip(q) == before.skip(q)
}

/// What the walk along a cluster chain does after reading a cluster.
#[derive(Debug, Clone, Copy, PartialEq, Eq, Structural)]
pub enum ChainStep {
    /// The cluster was the last of its chain.
    Done,
    /// The walk goes on with this cluster.
    Continue(Cluster),
    /// The chain holds more clusters than there are data clusters: it never ends.
    Endless,
}

/// Decides how the walk along a chain goes on once it has read `steps + 1`
/// clusters and learned `next`, the cluster after the last one read: it stops
/// at the end of the chain, goes on while fewer clusters than there are data
/// clusters were read, and gives up on the chain otherwise.
pub fn chain_step(steps: u32, next: Option<Cluster>) -> (s: ChainStep)
    ensures
        s == match next {
            None => ChainStep::Done,
            Some(c) => if steps + 1 < DATA_CLUSTER_COUNT {
                ChainStep::Continue(c)
            } else {
                ChainStep::Endless
            },
        },
{
    match next {
        None => ChainStep::Done,
        Some(c) => {
            if steps < DATA_CLUSTER_COUNT - 1 {
                ChainStep::Continue(c)
            } else {
                ChainStep::Endless
            }
        },
    }
}

/// A mounted FAT32 file system on a block device.
#[derive(Debug)]
pub struct VFat<T: BlockDevice> {
    device: T,
    device_sector_size: u64,
    partition_start: u64,
    bytes_per_sector: u16,
    sectors_per_cluster: u8,
    sectors_per_fat: u32,
    fat_start_sector: u64,
    data_start_sector: u64,
    root_dir_cluster: Cluster,
}

impl<T: BlockDevice> VFat<T> {
    /// The file system's invariant: the logical sector is made of whole device
    /// sectors, and the regions lie in order within the sector bound.
    pub closed spec fn wf(&self) -> bool {
        &&& self.device_sector_size == self.device.spec_sector_size()
        &&& 0 < self.device_sector_size <= u16::MAX
        &&& supported_sector_size(self.bytes_per_sector, self.device_sector_size)
        &&& self.partition_start <= u32::MAX
        &&& self.partition_start <= self.fat_start_sector <= self.data_start_sector
        &&& self.data_start_sector < 0x200_0000_0000
    }

    /// The bytes that the device stores in each of its sectors.
    pub closed spec fn spec_device_sectors(&self) -> spec_fn(u64) -> Seq<u8> {
        self.device.spec_sectors()
    }

    /// Whether every read of the device succeeds, giving back as much of the
    /// sector as fits in the buffer.
    pub closed spec fn device_reliable(&self) -> bool {
        self.device.spec_reliable()
    }

    /// Whether `self` and `other` mount the same disk the same way.
    pub closed spec fn same_disk(&self, other: &Self) -> bool {
        &&& self.device.spec_sectors() == other.device.spec_sectors()
        &&& self.device.spec_reliable() == other.device.spec_reliable()
        &&& self.device.spec_sector_size() == other.device.spec_sector_size()
        &&& self.device_sector_size == other.device_sector_size
        &&& self.partition_start == other.partition_start
        &&& self.bytes_per_sector == other.bytes_per_sector
        &&& self.sectors_per_cluster == other.sectors_per_cluster
        &&& self.sectors_per_fat == other.sectors_per_fat
        &&& self.fat_start_sector == other.fat_start_sector
        &&& self.data_start_sector == other.data_start_sector
        &&& self.root_dir_cluster == other.root_dir_cluster
    }

    /// Size in bytes of a logical sector.
    pub closed spec fn spec_bytes_per_sector(&self) -> nat {
        self.bytes_per_sector as nat
    }

    /// Number of logical sectors per cluster.
    pub closed spec fn spec_sectors_per_cluster(&self) -> nat {
        self.sectors_per_cluster as nat
    }

    /// Number of logical sectors that one FAT takes.
    pub closed spec fn spec_sectors_per_fat(&self) -> nat {
        self.sectors_per_fat as nat
    }

    /// Device sector at which the partition starts.
    pub closed spec fn spec_partition_start(&self) -> nat {
        self.partition_start as nat
    }

    /// Logical sector at which the first FAT starts.
    pub closed spec fn spec_fat_start_sector(&self) -> nat {
        self.fat_start_sector as nat
    }

    /// Logical sector at which the data region starts.
    pub closed spec fn spec_data_start_sector(&self) -> nat {
        self.data_start_sector as nat
    }

    /// The cluster of the root directory.
    pub closed spec fn spec_root_dir_cluster(&self) -> Cluster {
        self.root_dir_cluster
    }

    /// Size in bytes of a sector of the device.
    pub closed spec fn spec_device_sector_size(&self) -> nat {
        self.device_sector_size as nat
    }

    /// Number of device sectors per logical sector.
    pub open spec fn factor(&self) -> nat {
        self.spec_bytes_per_sector() / self.spec_device_sector_size()
    }

    /// Size in bytes of a cluster.
    pub open spec fn cluster_size(&self) -> nat {
        self.spec_bytes_per_sector() * self.spec_sectors_per_cluster()
    }

    /// The device sector at which logical sector `n` starts: logical sectors
    /// are numbered as device sectors up to the partition start, and in units
    /// of the logical size from there on.
    pub open spec fn physical_sector(&self, n: int) -> int {
        self.spec_partition_start() + (n - self.spec_partition_start()) * self.factor()
    }

    /// Device sector `j` of logical sector `n`, brought to the device's sector size.
    pub open spec fn logical_piece(&self, n: int) -> spec_fn(int) -> Seq<u8> {
        |j: int| fit(self.spec_device_sectors()((self.physical_sector(n) + j) as u64), self.spec_device_sector_size())
    }

    /// Whether each device sector of logical sector `n` holds a whole
    /// device sector's bytes.
    pub open spec fn logical_sector_whole(&self, n: int) -> bool {
        forall|i: int| 0 <= i < self.factor() ==>
            (#[trigger] self.spec_device_sectors()((self.physical_sector(n) + i) as u64)).len()
                >= self.spec_device_sector_size()
    }

    /// The bytes of logical sector `n`.
    pub open spec fn logical_sector(&self, n: int) -> Seq<u8> {
        concat(self.logical_piece(n), self.factor())
    }

    /// The logical sector at which cluster `c` starts.
    pub open spec fn cluster_start(&self, c: Cluster) -> int {
        self.spec_data_start_sector() + (c.0 - 2) * self.spec_sectors_per_cluster()
    }

    /// Logical sector `j` of cluster `c`.
    pub open spec fn cluster_piece(&self, c: Cluster) -> spec_fn(int) -> Seq<u8> {
        |j: int| self.logical_sector(self.cluster_start(c) + j)
    }

    /// Whether logical sector `j` of cluster `c` is stored whole on the device.
    pub open spec fn cluster_sector_whole(&self, c: Cluster, j: int) -> bool {
        self.logical_sector_whole(self.cluster_start(c) + j)
    }

    /// Whether each logical sector of cluster `c` that holds one of the `k`
    /// bytes from byte `offset` on is stored whole on the device.
    pub open spec fn cluster_range_whole(&self, c: Cluster, offset: int, k: int) -> bool {
        forall|j: int| 0 < k && offset < (j + 1) * self.spec_bytes_per_sector() && j * self.spec_bytes_per_sector() < offset + k
            ==> #[trigger] self.cluster_sector_whole(c, j)
    }

    /// The bytes of cluster `c`.
    pub open spec fn cluster_bytes(&self, c: Cluster) -> Seq<u8> {
        concat(self.cluster_piece(c), self.spec_sectors_per_cluster())
    }

    /// The logical sector that holds the FAT entry of cluster `c`.
    pub open spec fn fat_sector(&self, c: Cluster) -> int {
        self.spec_fat_start_sector() + (c.0 * FAT_ENTRY_SIZE) / (self.spec_bytes_per_sector() as int)
    }

    /// Index, among the entries of its sector, of the FAT entry of cluster `c`.
    pub open spec fn fat_index(&self, c: Cluster) -> int {
        ((c.0 * FAT_ENTRY_SIZE) % (self.spec_bytes_per_sector() as int)) / FAT_ENTRY_SIZE as int
    }

    /// Whether the FAT entry of cluster `c` lies whole within its sector.
    pub open spec fn fat_entry_in_sector(&self, c: Cluster) -> bool {
        self.fat_index(c) < (self.spec_bytes_per_sector() as int) / FAT_ENTRY_SIZE as int
    }

    /// The FAT entry of cluster `c`: the four bytes at its place in the first
    /// FAT, read as a little-endian number.
    pub open spec fn spec_fat_entry(&self, c: Cluster) -> FatEntry {
        FatEntry(le_u32(self.logical_sector(self.fat_sector(c)), FAT_ENTRY_SIZE * self.fat_index(c)) as u32)
    }

    /// Whether `chain` is the chain of clusters that starts at `start`: each
    /// cluster can hold data, each FAT entry but the last names the next
    /// cluster, and the last marks the end of the chain.
    pub open spec fn is_chain(&self, start: Cluster, chain: Seq<Cluster>) -> bool {
        &&& chain.len() > 0
        &&& chain[0] == start
        &&& forall|i: int| 0 <= i < chain.len() ==> (#[trigger] chain[i]).spec_is_valid()
        &&& forall|i: int| 0 <= i < chain.len() - 1 ==>
            next_result(self.spec_fat_entry(#[trigger] chain[i])) == Ok::<Option<Cluster>, std::io::Error>(Some(chain[i + 1]))
        &&& next_result(self.spec_fat_entry(chain.last())) == Ok::<Option<Cluster>, std::io::Error>(None)
    }

    /// Whether `self` mounts the partition that starts at device sector
    /// `start` and that the parameter block `ebpb` describes.
    pub open spec fn mounted_from(&self, start: u64, ebpb: &BiosParameterBlock) -> bool {
        let sectors_per_fat = ebpb.spec_logical_sectors_per_FAT();
        &&& self.spec_partition_start() == start
        &&& self.spec_bytes_per_sector() == ebpb.bytes_per_logical_sector
        &&& self.spec_sectors_per_cluster() == ebpb.logical_sectors_per_cluster
        &&& self.spec_sectors_per_fat() == sectors_per_fat
        &&& self.spec_fat_start_sector() == start + ebpb.reserved_logical_sectors
        &&& self.spec_data_start_sector() == start + ebpb.reserved_logical_sectors
            + sectors_per_fat * ebpb.num_of_FATs
        &&& self.spec_root_dir_cluster() == Cluster(ebpb.root_directory_cluster)
    }

    /// Whether `chain` is the start of the chain of clusters that starts at
    /// `start`: empty, or starting at `start`, each cluster able to hold data
    /// and each FAT entry but the last naming the next cluster.
    pub open spec fn is_chain_prefix(&self, start: Cluster, chain: Seq<Cluster>) -> bool {
        chain.len() > 0 ==> {
            &&& chain[0] == start
            &&& forall|i: int| 0 <= i < chain.len() ==> (#[trigger] chain[i]).spec_is_valid()
            &&& forall|i: int| 0 <= i < chain.len() - 1 ==>
                next_result(self.spec_fat_entry(#[trigger] chain[i])) == Ok::<Option<Cluster>, std::io::Error>(Some(chain[i + 1]))
        }
    }

    /// Whether each cluster of `chain`, and the FAT sector that holds its
    /// entry, is stored whole on the device.
    pub open spec fn chain_whole(&self, chain: Seq<Cluster>) -> bool {
        forall|i: int| 0 <= i < chain.len() ==> {
            &&& self.cluster_range_whole(#[trigger] chain[i], 0, self.cluster_size() as int)
            &&& self.logical_sector_whole(self.fat_sector(chain[i]))
        }
    }

    /// The bytes of the first FAT: its logical sectors, one after the other.
    pub open spec fn fat_region(&self) -> Seq<u8> {
        concat(|j: int| self.logical_sector(self.spec_fat_start_sector() + j), self.spec_sectors_per_fat())
    }

    /// The bytes of the clusters of `chain`, one after the other.
    pub open spec fn chain_bytes(&self, chain: Seq<Cluster>) -> Seq<u8> {
        concat(|i: int| self.cluster_bytes(chain[i]), chain.len())
    }

    /// Returns the size in bytes of a logical sector.
    pub fn bytes_per_sector(&self) -> (n: u16)
        ensures
            n == self.spec_bytes_per_sector(),
    {
        self.bytes_per_sector
    }

    /// Returns the number of logical sectors per cluster.
    pub fn sectors_per_cluster(&self) -> (n: u8)
        ensures
            n == self.spec_sectors_per_cluster(),
    {
        self.sectors_per_cluster
    }

    /// Returns the number of logical sectors that one FAT takes.
    pub fn sectors_per_fat(&self) -> (n: u32)
        ensures
            n == self.spec_sectors_per_fat(),
    {
        self.sectors_per_fat
    }

    /// Returns the device sector at which the partition starts.
    pub fn partition_start(&self) -> (n: u64)
        ensures
            n == self.spec_partition_start(),
    {
        self.partition_start
    }

    /// Returns the logical sector at which the first FAT starts.
    pub fn fat_start_sector(&self) -> (n: u64)
        ensures
            n == self.spec_fat_start_sector(),
    {
        self.fat_start_sector
    }

    /// Returns the logical sector at which the data region starts.
    pub fn data_start_sector(&self) -> (n: u64)
        ensures
            n == self.spec_data_start_sector(),
    {
        self.data_start_sector
    }

    /// Returns the cluster of the root directory.
    pub fn root_dir_cluster(&self) -> (c: Cluster)
        ensures
            c == self.spec_root_dir_cluster(),
    {
        self.root_dir_cluster
    }

    /// Mounts the FAT32 file system of the first FAT32 partition of `device`.
    ///
    /// # Errors
    ///
    /// `Mbr` if the master boot record cannot be read, `Io` of kind
    /// `NotFound` if it names no FAT32 partition, the errors of
    /// `BiosParameterBlock::from` for the partition's parameter block, and
    /// `Io` of kind `Other` if its logical sector size is not a multiple of
    /// the device's.
    pub fn from(mut device: T) -> (r: Result<VFat<T>, Error>)
        requires
            0 < device.spec_sector_size(),
        ensures
            r matches Ok(v) ==> {
                let s0 = device.spec_sectors()(0);
                let start = v.spec_partition_start();
                let e = device.spec_sectors()(start as u64);
                &&& v.wf()
                &&& v.spec_device_sectors() == device.spec_sectors()
                &&& s0.len() >= MBR_SIZE
                &&& crate::mbr::valid_mbr_sector(s0.take(MBR_SIZE as int))
                &&& spec_first_vfat_partition(spec_partitions(s0.take(MBR_SIZE as int))) == Some(start as u32)
                &&& e.len() >= EBPB_SIZE
                &&& exists|ebpb: BiosParameterBlock| #[trigger] ebpb.decodes(e.take(EBPB_SIZE as int))
                    && le_u16(e.take(EBPB_SIZE as int), 510) == crate::vfat::ebpb::EBPB_MAGIC
                    && v.mounted_from(start as u64, &ebpb)
                &&& v.spec_bytes_per_sector() == e[11] + 256 * e[12]
                &&& v.spec_sectors_per_cluster() == e[13]
                &&& v.spec_fat_start_sector() == start + e[14] + 256 * e[15]
                &&& v.spec_sectors_per_fat() == if e[22] + 256 * e[23] > 0 {
                    e[22] + 256 * e[23]
                } else {
                    e[36] + 256 * e[37] + 65536 * e[38] + 16777216 * e[39]
                }
                &&& v.spec_data_start_sector() == v.spec_fat_start_sector() + v.spec_sectors_per_fat() * e[16]
            },
            r matches Err(Error::Mbr(e)) ==> !(e is Io) ==> {
                let s0 = device.spec_sectors()(0);
                &&& s0.len() >= MBR_SIZE
                &&& MasterBootRecord::parse_result(s0.take(MBR_SIZE as int), Err(e))
            },
            !(r matches Err(Error::Mbr(_))) ==> {
                let s0 = device.spec_sectors()(0).take(MBR_SIZE as int);
                &&& device.spec_sectors()(0).len() >= MBR_SIZE
                &&& crate::mbr::valid_mbr_sector(s0)
                &&& spec_first_vfat_partition(spec_partitions(s0)) is None ==> r == Err::<VFat<T>, Error>(
                    Error::Io(io_error_of(IoErrorKind::NotFound, NO_VFAT_PARTITION@)),
                )
            },
            device.spec_reliable() ==> ({
                let s0 = device.spec_sectors()(0);
                s0.len() >= MBR_SIZE && crate::mbr::valid_mbr_sector(s0.take(MBR_SIZE as int))
                    && (spec_first_vfat_partition(spec_partitions(s0.take(MBR_SIZE as int))) matches Some(start)
                    && device.spec_sectors()(start as u64).len() >= EBPB_SIZE
                    && le_u16(device.spec_sectors()(start as u64).take(EBPB_SIZE as int), 510) == crate::vfat::ebpb::EBPB_MAGIC
                    && supported_sector_size(
                        le_u16(device.spec_sectors()(start as u64).take(EBPB_SIZE as int), 11) as u16,
                        device.spec_sector_size() as u64,
                    ))
                    ==> r is Ok
            }),
            r matches Err(Error::BadSignature) ==> {
                let s0 = device.spec_sectors()(0);
                &&& s0.len() >= MBR_SIZE
                &&& crate::mbr::valid_mbr_sector(s0.take(MBR_SIZE as int))
                &&& spec_first_vfat_partition(spec_partitions(s0.take(MBR_SIZE as int))) matches Some(start)
                &&& device.spec_sectors()(start as u64).len() >= EBPB_SIZE
                &&& le_u16(device.spec_sectors()(start as u64).take(EBPB_SIZE as int), 510) != crate::vfat::ebpb::EBPB_MAGIC
            },
    {
        let mbr = match MasterBootRecord::from(&mut device) {
            Ok(mbr) => mbr,
            Err(e) => return Err(Error::Mbr(e)),
        };
        let ghost s0 = device.spec_sectors()(0).take(MBR_SIZE as int);
        proof {
            mbr.lemma_decodes_partitions(s0);
        }
        let start = partition_start(&mbr)?;
        let ebpb = BiosParameterBlock::from(&mut device, start)?;
        let device_sector_size = device.sector_size();
        check_sector_size(ebpb.bytes_per_logical_sector, device_sector_size)?;
        let ghost e = device.spec_sectors()(start).take(EBPB_SIZE as int);
        let vfat = Self::from_parts(device, start, &ebpb);
        assert(ebpb.decodes(e));
        proof {
            vfat.lemma_mount_layout(start, &ebpb, e);
        }
        Ok(vfat)
    }

    /// A logical sector holds `bytes_per_sector` bytes.
    proof fn lemma_logical_sector_len(&self, n: int)
        requires
            self.wf(),
        ensures
            self.factor() * (self.device_sector_size as nat) == self.bytes_per_sector as nat,
            uniform_pieces(self.logical_piece(n), self.factor(), self.device_sector_size as nat),
            self.logical_sector(n).len() == self.bytes_per_sector as nat,
    {
        let ss = self.device_sector_size as int;
        let bps = self.bytes_per_sector as int;
        vstd::arithmetic::div_mod::lemma_fundamental_div_mod(bps, ss);
        let f = self.factor() as int;
        assert(f * ss == ss * f) by (nonlinear_arith);
        assert(f == bps / ss);
        lemma_concat_len(self.logical_piece(n), self.factor(), ss as nat);
    }

    /// Reads logical sector `n`: the device sectors it is made of, one after
    /// the other.
    ///
    /// # Errors
    ///
    /// The device's error if a read fails, and `UnexpectedEof` if a device
    /// sector is not read whole.
    fn read_logical_sector(&mut self, n: u64) -> (r: Result<Vec<u8>, std::io::Error>)
        requires
            old(self).wf(),
            old(self).partition_start <= n < SECTOR_LIMIT,
        ensures
            final(self).wf(),
            final(self).same_disk(old(self)),
            r matches Ok(v) ==> v@ == old(self).logical_sector(n as int),
            r is Ok ==> old(self).logical_sector_whole(n as int),
            old(self).device_reliable() && old(self).logical_sector_whole(n as int) ==> r is Ok,
    {
        let ghost good = old(self).device_reliable() && old(self).logical_sector_whole(n as int);
        let factor = self.bytes_per_sector as u64 / self.device_sector_size;
        assert((n - self.partition_start) * factor <= SECTOR_LIMIT * 0xFFFF) by (nonlinear_arith)
            requires
                n - self.partition_start <= SECTOR_LIMIT,
                factor <= 0xFFFF,
        ;
        let first = self.partition_start + (n - self.partition_start) * factor;
        let ss = self.device_sector_size as usize;
        let ghost piece = self.logical_piece(n as int);
        let mut out: Vec<u8> = Vec::new();
        let mut j: u64 = 0;
        while j < factor
            invariant
                self.wf(),
                self.same_disk(old(self)),
                factor == self.factor(),
                first == self.physical_sector(n as int),
                first <= SECTOR_LIMIT * 0x1_0000,
                ss == self.device_sector_size,
                piece == self.logical_piece(n as int),
                j <= factor,
                out@ == concat(piece, j as nat),
                forall|i: int| 0 <= i < j ==>
                    (#[trigger] self.device.spec_sectors()((first + i) as u64)).len() >= ss,
                good == (old(self).device_reliable() && old(self).logical_sector_whole(n as int)),
                good ==> self.device.spec_reliable(),
                good ==> forall|i: int| 0 <= i < factor ==>
                    (#[trigger] self.device.spec_sectors()((first + i) as u64)).len() >= ss,
            decreases factor - j,
        {
            let mut tmp = vec![0u8; ss];
            let k = match self.device.read_sector(first + j, tmp.as_mut_slice()) {
                Ok(k) => k,
                Err(e) => return Err(e),
            };
            if k != ss {
                return Err(io_error(IoErrorKind::UnexpectedEof, SHORT_SECTOR_READ));
            }
            proof {
                let s = self.device.spec_sectors()((first + j) as u64);
                assert(tmp@.take(k as int) == tmp@);
                assert(tmp@ =~= fit(s, ss as nat));
                assert(piece(j as int) == fit(s, ss as nat));
            }
            out.append(&mut tmp);
            j = j + 1;
        }
        proof {
            assert forall|i: int| 0 <= i < old(self).factor() implies
                (#[trigger] old(self).device.spec_sectors()((old(self).physical_sector(n as int) + i) as u64)).len()
                    >= old(self).device_sector_size by {
                assert(self.device.spec_sectors()((first + i) as u64).len() >= ss);
            }
        }
        Ok(out)
    }

    /// A cluster chain is determined by its first cluster: two chains that
    /// start at the same cluster are the same chain.
    pub proof fn lemma_chain_unique(&self, start: Cluster, a: Seq<Cluster>, b: Seq<Cluster>)
        requires
            self.is_chain(start, a),
            self.is_chain(start, b),
        ensures
            a == b,
    {
        assert forall|i: int| 0 <= i < a.len() && i < b.len() implies a[i] == b[i] by {
            self.lemma_chains_agree(start, a, b, i);
        }
        if a.len() < b.len() {
            let i = a.len() - 1;
            self.lemma_chains_agree(start, a, b, i);
            assert(next_result(self.spec_fat_entry(b[i])) == Ok::<Option<Cluster>, std::io::Error>(Some(b[i + 1])));
        } else if b.len() < a.len() {
            let i = b.len() - 1;
            self.lemma_chains_agree(start, a, b, i);
            assert(next_result(self.spec_fat_entry(a[i])) == Ok::<Option<Cluster>, std::io::Error>(Some(a[i + 1])));
        }
        assert(a =~= b);
    }

    /// A cluster chain never comes back to a cluster it has visited.
    pub proof fn lemma_chain_distinct(&self, start: Cluster, chain: Seq<Cluster>)
        requires
            self.is_chain(start, chain),
        ensures
            chain.no_duplicates(),
    {
        assert forall|i: int, j: int| 0 <= i < chain.len() && 0 <= j < chain.len() && i != j
            implies chain[i] != chain[j] by {
            if chain[i] == chain[j] {
                let a = if i < j { i } else { j };
                let b = if i < j { j } else { i };
                let k = chain.len() - 1 - b;
                self.lemma_chain_shift(start, chain, a, b, k);
                assert(next_result(self.spec_fat_entry(chain[a + k])) == Ok::<Option<Cluster>, std::io::Error>(Some(chain[a + k + 1])));
                assert(chain[b + k] == chain.last());
            }
        }
    }

    /// A cluster chain holds at most as many clusters as there are data
    /// clusters, 0x0FFF_FFEE.
    pub proof fn lemma_chain_len(&self, start: Cluster, chain: Seq<Cluster>)
        requires
            self.is_chain(start, chain),
        ensures
            chain.len() <= 0x0FFF_FFEE,
    {
        self.lemma_chain_distinct(start, chain);
        let nums = chain.map_values(|c: Cluster| c.0 as int);
        assert(nums.no_duplicates()) by {
            assert forall|i: int, j: int| 0 <= i < nums.len() && 0 <= j < nums.len() && i != j
                implies nums[i] != nums[j] by {
                assert(chain[i] != chain[j]);
            }
        }
        nums.unique_seq_to_set();
        let range = vstd::set_lib::set_int_range(2, 0x0FFF_FFF0);
        vstd::set_lib::lemma_int_range(2, 0x0FFF_FFF0);
        assert forall|x: int| nums.to_set().contains(x) implies range.contains(x) by {
            let i = choose|i: int| 0 <= i < nums.len() && nums[i] == x;
            assert(chain[i].spec_is_valid());
        }
        vstd::set_lib::lemma_len_subset(nums.to_set(), range);
    }

    /// In a chain, two positions that hold the same cluster are followed by
    /// the same clusters.
    proof fn lemma_chain_shift(&self, start: Cluster, chain: Seq<Cluster>, i: int, j: int, k: int)
        requires
            self.is_chain(start, chain),
            0 <= i < j,
            0 <= k,
            j + k < chain.len(),
            chain[i] == chain[j],
        ensures
            chain[i + k] == chain[j + k],
        decreases k,
    {
        if k > 0 {
            self.lemma_chain_shift(start, chain, i, j, k - 1);
            assert(next_result(self.spec_fat_entry(chain[i + k - 1])) == Ok::<Option<Cluster>, std::io::Error>(Some(chain[i + k])));
            assert(next_result(self.spec_fat_entry(chain[j + k - 1])) == Ok::<Option<Cluster>, std::io::Error>(Some(chain[j + k])));
        }
    }

    /// Two chains from the same cluster agree on each position they share.
    proof fn lemma_chains_agree(&self, start: Cluster, a: Seq<Cluster>, b: Seq<Cluster>, i: int)
        requires
            self.is_chain(start, a),
            self.is_chain(start, b),
            0 <= i < a.len(),
            i < b.len(),
        ensures
            a[i] == b[i],
        decreases i,
    {
        if i > 0 {
            self.lemma_chains_agree(start, a, b, i - 1);
            assert(next_result(self.spec_fat_entry(a[i - 1])) == Ok::<Option<Cluster>, std::io::Error>(Some(a[i])));
            assert(next_result(self.spec_fat_entry(b[i - 1])) == Ok::<Option<Cluster>, std::io::Error>(Some(b[i])));
        }
    }

    /// A cluster whose FAT entry ends its chain is a chain on its own, and the
    /// chain's bytes are the cluster's.
    pub proof fn lemma_single_cluster_chain(&self, c: Cluster)
        requires
            c.spec_is_valid(),
            next_result(self.spec_fat_entry(c)) == Ok::<Option<Cluster>, std::io::Error>(None),
        ensures
            self.is_chain(c, seq![c]),
            self.chain_bytes(seq![c]) == self.cluster_bytes(c),
    {
        let chain = seq![c];
        assert(chain.last() == c);
        assert(concat(|i: int| self.cluster_bytes(chain[i]), 0) =~= Seq::<u8>::empty());
        assert(self.chain_bytes(chain) == concat(|i: int| self.cluster_bytes(chain[i]), 0) + self.cluster_bytes(chain[0]));
    }

    /// Two mounts of the same disk have the same geometry and read the same
    /// bytes, the same FAT entries and the same chains.
    pub proof fn lemma_same_disk(&self, other: &Self)
        requires
            self.same_disk(other),
        ensures
            self.spec_device_sectors() == other.spec_device_sectors(),
            self.spec_bytes_per_sector() == other.spec_bytes_per_sector(),
            self.spec_sectors_per_cluster() == other.spec_sectors_per_cluster(),
            self.spec_sectors_per_fat() == other.spec_sectors_per_fat(),
            self.spec_partition_start() == other.spec_partition_start(),
            self.spec_fat_start_sector() == other.spec_fat_start_sector(),
            self.spec_data_start_sector() == other.spec_data_start_sector(),
            self.spec_root_dir_cluster() == other.spec_root_dir_cluster(),
            self.cluster_size() == other.cluster_size(),
            self.wf() == other.wf(),
            forall|n: int| #[trigger] self.logical_sector(n) == other.logical_sector(n),
            forall|c: Cluster| #[trigger] self.cluster_bytes(c) == other.cluster_bytes(c),
            forall|c: Cluster| #[trigger] self.spec_fat_entry(c) == other.spec_fat_entry(c),
            forall|c: Cluster| #[trigger] self.fat_entry_in_sector(c) == other.fat_entry_in_sector(c),
            forall|start: Cluster, chain: Seq<Cluster>|
                #[trigger] self.is_chain(start, chain) == other.is_chain(start, chain),
            forall|chain: Seq<Cluster>| #[trigger] self.chain_bytes(chain) == other.chain_bytes(chain),
    {
        assert forall|n: int| #[trigger] self.logical_sector(n) == other.logical_sector(n) by {
            assert(self.logical_piece(n) =~= other.logical_piece(n));
        }
        assert forall|c: Cluster| #[trigger] self.cluster_bytes(c) == other.cluster_bytes(c) by {
            assert(self.cluster_piece(c) =~= other.cluster_piece(c));
        }
        assert forall|chain: Seq<Cluster>| #[trigger] self.chain_bytes(chain) == other.chain_bytes(chain) by {
            assert((|i: int| self.cluster_bytes(chain[i])) =~= (|i: int| other.cluster_bytes(chain[i])));
        }
        assert forall|start: Cluster, chain: Seq<Cluster>|
            #[trigger] self.is_chain(start, chain) == other.is_chain(start, chain) by {
            assert forall|c: Cluster| #[trigger] self.spec_fat_entry(c) == other.spec_fat_entry(c) by {}
        }
    }

    /// Where a mount finds its regions, read from the bytes `b` of the
    /// partition's parameter block at device sector `start`: the FAT after
    /// the reserved sectors (the 16-bit count at byte 14), and the data
    /// region after all the FATs (sectors per FAT, from byte 22 or else byte
    /// 36, times the count of FATs at byte 16).
    pub proof fn lemma_mount_layout(&self, start: u64, ebpb: &BiosParameterBlock, b: Seq<u8>)
        requires
            self.mounted_from(start, ebpb),
            ebpb.decodes(b),
            b.len() == EBPB_SIZE,
        ensures
            self.spec_partition_start() == start,
            self.spec_bytes_per_sector() == b[11] + 256 * b[12],
            self.spec_sectors_per_cluster() == b[13],
            self.spec_sectors_per_fat() == if b[22] + 256 * b[23] > 0 {
                b[22] + 256 * b[23]
            } else {
                b[36] + 256 * b[37] + 65536 * b[38] + 16777216 * b[39]
            },
            self.spec_fat_start_sector() == start + b[14] + 256 * b[15],
            self.spec_data_start_sector() == start + b[14] + 256 * b[15] + self.spec_sectors_per_fat() * b[16],
            self.spec_root_dir_cluster().0 == b[44] + 256 * b[45] + 65536 * b[46] + 16777216 * b[47],
    {
        ebpb.lemma_decoded_layout(b);
        ebpb.lemma_logical_sectors_per_FAT_layout(b);
    }

    /// Byte `i` of logical sector `n` is byte `i % ss` of device sector
    /// `start + (n - start) * (bps / ss) + i / ss`, for a partition at device
    /// sector `start`, logical sectors of `bps` bytes and device sectors of
    /// `ss` bytes; a zero where the device holds less.
    pub proof fn lemma_logical_sector_byte(&self, n: int, i: int)
        requires
            self.wf(),
            0 <= i < self.spec_bytes_per_sector(),
        ensures
            ({
                let ss = self.spec_device_sector_size() as int;
                let start = self.spec_partition_start() as int;
                let s = self.spec_device_sectors()(
                    (start + (n - start) * (self.spec_bytes_per_sector() as int / ss) + i / ss) as u64,
                );
                self.logical_sector(n)[i] == if i % ss < s.len() { s[i % ss] } else { 0u8 }
            }),
    {
        let ss = self.device_sector_size as int;
        let f = self.factor() as int;
        self.lemma_logical_sector_len(n);
        vstd::arithmetic::div_mod::lemma_fundamental_div_mod(i, ss);
        let j = i / ss;
        let r = i % ss;
        assert(0 <= j < f) by {
            vstd::arithmetic::div_mod::lemma_div_pos_is_pos(i, ss);
            if j >= f {
                vstd::arithmetic::mul::lemma_mul_inequality(f, j, ss);
                assert(ss * j == j * ss) by (nonlinear_arith);
            }
        }
        assert(j * ss == ss * j) by (nonlinear_arith);
        lemma_concat_index(self.logical_piece(n), f as nat, ss as nat, j, r);
    }

    /// Byte `i` of cluster `c` is byte `i % bps` of logical sector
    /// `data_start + (c - 2) * spc + i / bps`, for logical sectors of `bps`
    /// bytes and clusters of `spc` logical sectors.
    pub proof fn lemma_cluster_byte(&self, c: Cluster, i: int)
        requires
            self.wf(),
            0 <= i < self.spec_bytes_per_sector() * self.spec_sectors_per_cluster(),
        ensures
            ({
                let bps = self.spec_bytes_per_sector() as int;
                self.cluster_bytes(c)[i] == self.logical_sector(
                    self.spec_data_start_sector() + (c.0 - 2) * self.spec_sectors_per_cluster() + i / bps,
                )[i % bps]
            }),
    {
        let bps = self.bytes_per_sector as int;
        let spc = self.sectors_per_cluster as int;
        self.lemma_cluster_pieces(c);
        self.lemma_wf();
        vstd::arithmetic::div_mod::lemma_fundamental_div_mod(i, bps);
        let j = i / bps;
        let r = i % bps;
        assert(0 <= j < spc) by {
            vstd::arithmetic::div_mod::lemma_div_pos_is_pos(i, bps);
            if j >= spc {
                vstd::arithmetic::mul::lemma_mul_inequality(spc, j, bps);
                assert(bps * j == j * bps) by (nonlinear_arith);
                assert(bps * spc == spc * bps) by (nonlinear_arith);
            }
        }
        assert(j * bps == bps * j) by (nonlinear_arith);
        lemma_concat_index(self.cluster_piece(c), spc as nat, bps as nat, j, r);
    }

    /// The FAT entry of cluster `c` is the little-endian number in the four
    /// bytes at byte `4 * c` of the first FAT.
    pub proof fn lemma_fat_entry_at(&self, c: Cluster)
        requires
            self.wf(),
            self.spec_bytes_per_sector() % 4 == 0,
            4 * c.0 + 4 <= self.spec_sectors_per_fat() * self.spec_bytes_per_sector(),
        ensures
            ({
                let f = self.fat_region();
                let a = 4 * c.0;
                self.spec_fat_entry(c).0 == f[a] + 256 * f[a + 1] + 65536 * f[a + 2] + 16777216 * f[a + 3]
            }),
    {
        let bps = self.bytes_per_sector as int;
        let spf = self.sectors_per_fat as nat;
        let a = 4 * c.0;
        let q = a / bps;
        let m = a % bps;
        let piece = |j: int| self.logical_sector(self.spec_fat_start_sector() + j);
        vstd::arithmetic::div_mod::lemma_fundamental_div_mod(a, bps);
        self.lemma_wf();
        self.lemma_fat_entry_in_sector(c);
        assert(m % 4 == 0 && m + 4 <= bps) by {
            vstd::arithmetic::div_mod::lemma_fundamental_div_mod(bps, 4);
            assert(m % 4 == 0 && m + 4 <= bps) by (nonlinear_arith)
                requires
                    a == bps * q + m,
                    0 <= m < bps,
                    bps == 4 * (bps / 4),
                    a == 4 * c.0,
            {
                assert(m == 4 * (c.0 - (bps / 4) * q));
            }
        }
        assert(0 <= q < spf) by {
            vstd::arithmetic::div_mod::lemma_div_pos_is_pos(a, bps);
            if q >= spf {
                vstd::arithmetic::mul::lemma_mul_inequality(spf as int, q, bps);
                assert(bps * q == q * bps) by (nonlinear_arith);
            }
        }
        assert forall|j: int| 0 <= j < spf implies (#[trigger] piece(j)).len() == bps by {
            self.lemma_logical_sector_len(self.spec_fat_start_sector() + j);
        }
        assert(q * bps == bps * q) by (nonlinear_arith);
        lemma_concat_index(piece, spf, bps as nat, q, m);
        lemma_concat_index(piece, spf, bps as nat, q, m + 1);
        lemma_concat_index(piece, spf, bps as nat, q, m + 2);
        lemma_concat_index(piece, spf, bps as nat, q, m + 3);
        assert(self.fat_sector(c) == self.spec_fat_start_sector() + q);
        assert(FAT_ENTRY_SIZE * self.fat_index(c) == m) by {
            assert((m / 4) * 4 == m) by {
                vstd::arithmetic::div_mod::lemma_fundamental_div_mod(m, 4);
            }
        }
    }

    /// What the file system's invariant gives its users: a logical sector is
    /// a whole, nonzero number of device sectors, and the FAT lies between
    /// the partition start and the data region.
    pub proof fn lemma_wf(&self)
        requires
            self.wf(),
        ensures
            self.spec_device_sector_size() > 0,
            self.spec_bytes_per_sector() > 0,
            self.spec_bytes_per_sector() % self.spec_device_sector_size() == 0,
            self.factor() * self.spec_device_sector_size() == self.spec_bytes_per_sector(),
            self.spec_partition_start() <= self.spec_fat_start_sector() <= self.spec_data_start_sector(),
    {
        self.lemma_logical_sector_len(0);
    }

    /// The bytes of a chain are as many as its clusters hold together.
    pub proof fn lemma_chain_bytes_len(&self, chain: Seq<Cluster>)
        requires
            self.wf(),
        ensures
            self.chain_bytes(chain).len() == chain.len() * self.cluster_size(),
    {
        let piece = |i: int| self.cluster_bytes(chain[i]);
        assert forall|j: int| 0 <= j < chain.len() implies (#[trigger] piece(j)).len() == self.cluster_size() by {
            self.lemma_cluster_pieces(chain[j]);
        }
        lemma_concat_len(piece, chain.len(), self.cluster_size());
    }

    /// Two mounts of the same disk agree on cluster `c`: its bytes, its FAT
    /// entry, and which of its sectors and of the FAT are stored whole.
    proof fn lemma_same_disk_at(&self, other: &Self, c: Cluster)
        requires
            self.same_disk(other),
        ensures
            self.cluster_bytes(c) == other.cluster_bytes(c),
            self.spec_fat_entry(c) == other.spec_fat_entry(c),
    {
        self.lemma_same_disk(other);
    }

    /// Two mounts of the same disk agree on which sectors of cluster `c`, and
    /// of the FAT sector of its entry, are stored whole.
    proof fn lemma_same_disk_whole_at(&self, other: &Self, c: Cluster)
        requires
            self.same_disk(other),
        ensures
            self.cluster_range_whole(c, 0, self.cluster_size() as int)
                == other.cluster_range_whole(c, 0, other.cluster_size() as int),
            self.logical_sector_whole(self.fat_sector(c)) == other.logical_sector_whole(other.fat_sector(c)),
    {
        self.lemma_same_disk(other);
        assert forall|j: int| #[trigger] self.cluster_sector_whole(c, j) == other.cluster_sector_whole(c, j) by {
            self.lemma_same_whole(other, self.cluster_start(c) + j);
        }
        self.lemma_same_whole(other, self.fat_sector(c));
        let cs = self.cluster_size() as int;
        let bps = self.spec_bytes_per_sector();
        if self.cluster_range_whole(c, 0, cs) {
            assert forall|j: int| 0 < cs && 0 < (j + 1) * other.spec_bytes_per_sector()
                && j * other.spec_bytes_per_sector() < 0 + cs
                implies #[trigger] other.cluster_sector_whole(c, j) by {
                assert(self.cluster_sector_whole(c, j));
            }
        }
        if other.cluster_range_whole(c, 0, cs) {
            assert forall|j: int| 0 < cs && 0 < (j + 1) * bps && j * bps < 0 + cs
                implies #[trigger] self.cluster_sector_whole(c, j) by {
                assert(other.cluster_sector_whole(c, j));
            }
        }
    }

    /// Two mounts of the same disk agree on which logical sectors are stored whole.
    proof fn lemma_same_whole(&self, other: &Self, n: int)
        requires
            self.same_disk(other),
        ensures
            self.logical_sector_whole(n) == other.logical_sector_whole(n),
    {
        let p = self.physical_sector(n);
        assert(p == other.physical_sector(n));
        if self.logical_sector_whole(n) {
            assert forall|i: int| 0 <= i < other.factor() implies
                (#[trigger] other.spec_device_sectors()((other.physical_sector(n) + i) as u64)).len()
                    >= other.spec_device_sector_size() by {
                assert(self.spec_device_sectors()((p + i) as u64).len() >= self.spec_device_sector_size());
            }
        }
        if other.logical_sector_whole(n) {
            assert forall|i: int| 0 <= i < self.factor() implies
                (#[trigger] self.spec_device_sectors()((self.physical_sector(n) + i) as u64)).len()
                    >= self.spec_device_sector_size() by {
                assert(other.spec_device_sectors()((p + i) as u64).len() >= other.spec_device_sector_size());
            }
        }
    }

    /// Adding a cluster stored whole, whose FAT sector is stored whole, to a
    /// chain stored whole gives a chain stored whole.
    proof fn lemma_chain_whole_push(&self, chain: Seq<Cluster>, c: Cluster)
        requires
            self.chain_whole(chain),
            self.cluster_range_whole(c, 0, self.cluster_size() as int),
            self.logical_sector_whole(self.fat_sector(c)),
        ensures
            self.chain_whole(chain.push(c)),
    {
        let longer = chain.push(c);
        assert forall|i: int| 0 <= i < longer.len() implies {
            &&& self.cluster_range_whole(#[trigger] longer[i], 0, self.cluster_size() as int)
            &&& self.logical_sector_whole(self.fat_sector(longer[i]))
        } by {
            if i < chain.len() {
                assert(longer[i] == chain[i]);
            }
        }
    }

    /// Adding a cluster to a chain adds its bytes to the chain's.
    proof fn lemma_chain_bytes_push(&self, chain: Seq<Cluster>, c: Cluster)
        ensures
            self.chain_bytes(chain.push(c)) == self.chain_bytes(chain) + self.cluster_bytes(c),
    {
        let longer = chain.push(c);
        lemma_concat_congruent(
            |i: int| self.cluster_bytes(longer[i]),
            |i: int| self.cluster_bytes(chain[i]),
            chain.len(),
        );
    }

    /// Each logical sector of a cluster holds `bytes_per_sector` bytes.
    proof fn lemma_cluster_pieces(&self, c: Cluster)
        requires
            self.wf(),
        ensures
            uniform_pieces(self.cluster_piece(c), self.sectors_per_cluster as nat, self.bytes_per_sector as nat),
            self.cluster_bytes(c).len() == self.cluster_size(),
    {
        assert forall|j: int| 0 <= j < self.sectors_per_cluster as nat implies
            (#[trigger] self.cluster_piece(c)(j)).len() == self.bytes_per_sector as nat by {
            self.lemma_logical_sector_len(self.cluster_start(c) + j);
        }
        lemma_concat_len(self.cluster_piece(c), self.sectors_per_cluster as nat, self.bytes_per_sector as nat);
        let spc = self.sectors_per_cluster as nat;
        let bps = self.bytes_per_sector as nat;
        assert(spc * bps == bps * spc) by (nonlinear_arith);
    }

    /// Reads from byte `offset` of `cluster` into `buf`, as many bytes as fit
    /// in `buf` or remain in the cluster, whichever is less. Returns how many
    /// bytes it read: zero, with no read of the device, for an empty `buf` or
    /// an `offset` at the end of the cluster.
    ///
    /// # Errors
    ///
    /// `InvalidInput` if `cluster` cannot hold data; the device's error if a
    /// read fails, and `UnexpectedEof` if a device sector is not read whole.
    /// After a failed read, `buf` holds the bytes read before it and, from
    /// there on, what it held. A read that succeeds found each logical sector
    /// it read stored whole on the device.
    pub fn read_cluster(&mut self, cluster: Cluster, offset: usize, buf: &mut [u8]) -> (r: Result<usize, std::io::Error>)
        requires
            old(self).wf(),
            cluster.spec_is_valid() ==> offset <= old(self).cluster_size(),
        ensures
            final(self).wf(),
            final(self).same_disk(old(self)),
            final(buf)@.len() == old(buf)@.len(),
            !cluster.spec_is_valid() ==> {
                &&& r == Err::<usize, std::io::Error>(io_error_of(IoErrorKind::InvalidInput, INVALID_CLUSTER@))
                &&& final(buf)@ == old(buf)@
            },
            r matches Ok(k) ==> {
                &&& cluster.spec_is_valid()
                &&& k == if old(self).cluster_size() - offset < old(buf)@.len() {
                    old(self).cluster_size() - offset
                } else {
                    old(buf)@.len() as int
                }
                &&& final(buf)@.take(k as int) == old(self).cluster_bytes(cluster).subrange(offset as int, offset + k)
                &&& final(buf)@.skip(k as int) == old(buf)@.skip(k as int)
                &&& old(self).cluster_range_whole(cluster, offset as int, k as int)
            },
            cluster.spec_is_valid() && (old(buf)@.len() == 0 || offset == old(self).cluster_size()) ==> {
                &&& r == Ok::<usize, std::io::Error>(0)
                &&& final(buf)@ == old(buf)@
            },
            cluster.spec_is_valid() && old(self).device_reliable() && old(self).cluster_range_whole(
                cluster,
                offset as int,
                if old(self).cluster_size() - offset < old(buf)@.len() {
                    old(self).cluster_size() - offset
                } else {
                    old(buf)@.len() as int
                },
            ) ==> r is Ok,
            r is Err && cluster.spec_is_valid() ==> exists|q: int|
                #[trigger] copied_prefix(old(self).cluster_bytes(cluster), offset as int, old(buf)@, final(buf)@, q),
    {
        if !cluster.is_valid() {
            return Err(io_error(IoErrorKind::InvalidInput, INVALID_CLUSTER));
        }
        let len = buf.len();
        let sector_size = self.bytes_per_sector as usize;
        let sectors_per_cluster = self.sectors_per_cluster as usize;
        assert(sector_size * sectors_per_cluster <= 0xFFFF * 0xFF) by (nonlinear_arith)
            requires
                sector_size <= 0xFFFF,
                sectors_per_cluster <= 0xFF,
        ;
        let cluster_size = sector_size * sectors_per_cluster;
        let need = if cluster_size - offset < len { cluster_size - offset } else { len };
        let ghost good = old(self).device_reliable() && old(self).cluster_range_whole(cluster, offset as int, need as int);
        let index = cluster.cluster_index();
        assert(index as u64 * sectors_per_cluster as u64 <= 0xFFFF_FFFF * 0xFF) by (nonlinear_arith)
            requires
                index <= 0xFFFF_FFFF,
                sectors_per_cluster <= 0xFF,
        ;
        let first = self.data_start_sector + index as u64 * sectors_per_cluster as u64;
        let mut sector = first + (offset / sector_size) as u64;
        let mut rem = offset % sector_size;
        let mut read: usize = 0;
        let ghost spc = sectors_per_cluster as int;
        let ghost bps = sector_size as int;
        let ghost cb = self.cluster_bytes(cluster);
        proof {
            self.lemma_cluster_pieces(cluster);
            vstd::arithmetic::div_mod::lemma_fundamental_div_mod(offset as int, bps);
            assert(bps * (offset as int / bps) == (offset as int / bps) * bps) by (nonlinear_arith);
            assert(buf@.subrange(0, 0) =~= cb.subrange(offset as int, offset as int));
            assert(buf@.subrange(0, len as int) =~= old(buf)@.subrange(0, len as int));
        }
        while read < need
            invariant
                self.wf(),
                self.same_disk(old(self)),
                cluster.spec_is_valid(),
                sector_size == self.bytes_per_sector,
                bps == sector_size,
                spc == self.sectors_per_cluster,
                cluster_size == self.cluster_size(),
                cluster_size == bps * spc,
                first == self.cluster_start(cluster),
                first + spc < SECTOR_LIMIT,
                self.partition_start <= first,
                cb == self.cluster_bytes(cluster),
                cb == old(self).cluster_bytes(cluster),
                cb.len() == cluster_size,
                need == (if cluster_size - offset < len { cluster_size - offset } else { len as int }),
                len == buf@.len(),
                len == old(buf)@.len(),
                offset + need <= cluster_size,
                need <= len,
                read <= need,
                buf@.subrange(0, read as int) == cb.subrange(offset as int, offset + read),
                buf@.subrange(read as int, len as int) == old(buf)@.subrange(read as int, len as int),
                old(self).cluster_range_whole(cluster, offset as int, read as int),
                good == (old(self).device_reliable() && old(self).cluster_range_whole(cluster, offset as int, need as int)),
                read < need ==> {
                    &&& first <= sector
                    &&& (sector - first) * bps + rem == offset + read
                    &&& rem < bps
                },
            decreases need - read,
        {
            let ghost j = sector - first;
            proof {
                assert(j < spc) by (nonlinear_arith)
                    requires
                        j * bps + rem == offset + read,
                        offset + read < bps * spc,
                        0 <= rem,
                        0 <= j,
                        0 < bps,
                ;
            }
            proof {
                if good {
                    assert((j + 1) * bps == j * bps + bps) by (nonlinear_arith);
                    assert(old(self).cluster_sector_whole(cluster, j));
                    self.lemma_same_whole(old(self), sector as int);
                }
            }
            let ghost before = *self;
            let data = match self.read_logical_sector(sector) {
                Ok(data) => data,
                Err(e) => {
                    proof {
                        assert(buf@.take(read as int) == buf@.subrange(0, read as int));
                        assert(buf@.skip(read as int) =~= buf@.subrange(read as int, len as int));
                        assert(old(buf)@.skip(read as int) =~= old(buf)@.subrange(read as int, len as int));
                        assert(copied_prefix(cb, offset as int, old(buf)@, buf@, read as int));
                    }
                    return Err(e);
                },
            };
            proof {
                self.lemma_same_disk(&before);
                self.lemma_cluster_pieces(cluster);
            }
            let k = if need - read < sector_size - rem { need - read } else { sector_size - rem };
            proof {
                self.lemma_logical_sector_len(sector as int);
                assert(self.cluster_piece(cluster)(j) == self.logical_sector(sector as int));
                lemma_concat_subrange(self.cluster_piece(cluster), spc as nat, bps as nat, j, rem as int, k as int);
            }
            let ghost prev = buf@;
            copy_into(buf, read, data.as_slice(), rem, k);
            proof {
                assert(buf@.subrange(0, read + k) =~= prev.subrange(0, read as int) + buf@.subrange(read as int, read + k));
                assert(cb.subrange(offset as int, offset + read + k) =~= cb.subrange(offset as int, offset + read)
                    + cb.subrange(offset + read, offset + read + k));
                assert(buf@.subrange(read + k, len as int) =~= old(buf)@.subrange(read + k, len as int)) by {
                    assert(prev.subrange(read + k, len as int) =~= old(buf)@.subrange(read + k, len as int)) by {
                        assert forall|i: int| 0 <= i < len - read - k implies
                            #[trigger] prev.subrange(read + k, len as int)[i] == old(buf)@.subrange(read + k, len as int)[i] by {
                            assert(prev.subrange(read as int, len as int)[i + k] == old(buf)@.subrange(read as int, len as int)[i + k]);
                        }
                    }
                }
                if read + k < need {
                    assert((j + 1) * bps == j * bps + bps) by (nonlinear_arith);
                }
                assert(old(self).cluster_sector_whole(cluster, j));
                assert forall|j2: int|
                    0 < read + k && offset < (j2 + 1) * old(self).spec_bytes_per_sector()
                        && j2 * old(self).spec_bytes_per_sector() < offset + read + k
                    implies #[trigger] old(self).cluster_sector_whole(cluster, j2) by {
                    if !(0 < read && j2 * bps < offset + read) {
                        assert(j2 == j) by (nonlinear_arith)
                            requires
                                j * bps + rem == offset + read,
                                0 <= rem < bps,
                                rem + k <= bps,
                                0 <= offset,
                                offset < (j2 + 1) * bps,
                                j2 * bps < offset + read + k,
                                read == 0 || j2 * bps >= offset + read,
                        ;
                    }
                }
            }
            rem = 0;
            read = read + k;
            sector = sector + 1;
        }
        proof {
            assert(buf@.take(read as int) == buf@.subrange(0, read as int));
            assert(buf@.skip(read as int) =~= buf@.subrange(read as int, len as int));
            assert(old(buf)@.skip(read as int) =~= old(buf)@.subrange(read as int, len as int));
            if read == 0 {
                assert(buf@ =~= buf@.skip(0));
                assert(old(buf)@ =~= old(buf)@.skip(0));
            }
        }
        Ok(read)
    }

    /// With sectors a multiple of four bytes long, every FAT entry lies
    /// whole within its sector.
    pub proof fn lemma_fat_entry_in_sector(&self, c: Cluster)
        requires
            self.wf(),
            self.spec_bytes_per_sector() % 4 == 0,
        ensures
            self.fat_entry_in_sector(c),
    {
        let bps = self.bytes_per_sector as int;
        let pos = c.0 * 4;
        let q = pos / bps;
        let m = pos % bps;
        let a = bps / 4;
        vstd::arithmetic::div_mod::lemma_fundamental_div_mod(pos, bps);
        vstd::arithmetic::div_mod::lemma_fundamental_div_mod(bps, 4);
        assert(m / 4 < a) by (nonlinear_arith)
            requires
                pos == bps * q + m,
                0 <= m < bps,
                bps == 4 * a,
                pos == c.0 * 4,
        {
            assert(m == 4 * (c.0 - a * q));
        }
    }

    /// Returns the FAT entry of `cluster`, read from the sector of the FAT
    /// that holds it.
    ///
    /// # Errors
    ///
    /// The device's error if a read fails, and `UnexpectedEof` if a device
    /// sector is not read whole.
    pub fn fat_entry(&mut self, cluster: Cluster) -> (r: Result<FatEntry, std::io::Error>)
        requires
            old(self).wf(),
            old(self).fat_entry_in_sector(cluster),
        ensures
            final(self).wf(),
            final(self).same_disk(old(self)),
            r matches Ok(e) ==> e == old(self).spec_fat_entry(cluster),
            r is Ok ==> old(self).logical_sector_whole(old(self).fat_sector(cluster)),
            old(self).device_reliable() && old(self).logical_sector_whole(old(self).fat_sector(cluster)) ==> r is Ok,
    {
        let bps = self.bytes_per_sector as u64;
        let pos = cluster.cluster_num() as u64 * FAT_ENTRY_SIZE;
        let sector = self.fat_start_sector + pos / bps;
        let index = (pos % bps) / FAT_ENTRY_SIZE;
        proof {
            vstd::arithmetic::div_mod::lemma_fundamental_div_mod(bps as int, 4);
            assert(index * 4 + 4 <= bps) by (nonlinear_arith)
                requires
                    index < bps / 4,
                    bps == 4 * (bps / 4) + bps % 4,
                    bps % 4 >= 0,
            ;
        }
        let ghost before = *self;
        let content = self.read_logical_sector(sector)?;
        proof {
            self.lemma_same_disk(&before);
            self.lemma_logical_sector_len(sector as int);
        }
        Ok(FatEntry(read_u32_le(content.as_slice(), (index * FAT_ENTRY_SIZE) as usize)))
    }

    /// Returns the cluster that follows `cluster` in its chain, or `None` if
    /// `cluster` is the last of its chain.
    ///
    /// # Errors
    ///
    /// `InvalidInput` if `cluster`, or the cluster its FAT entry names, cannot
    /// hold data; `InvalidData` if its FAT entry marks it free, reserved or
    /// bad; and the errors of `fat_entry`.
    pub fn next_cluster(&mut self, cluster: Cluster) -> (r: Result<Option<Cluster>, std::io::Error>)
        requires
            old(self).wf(),
            cluster.spec_is_valid() ==> old(self).fat_entry_in_sector(cluster),
        ensures
            final(self).wf(),
            final(self).same_disk(old(self)),
            !cluster.spec_is_valid() ==> r == Err::<Option<Cluster>, std::io::Error>(
                io_error_of(IoErrorKind::InvalidInput, INVALID_CLUSTER@),
            ),
            r is Ok ==> cluster.spec_is_valid() && r == next_result(old(self).spec_fat_entry(cluster)),
            r is Ok ==> old(self).logical_sector_whole(old(self).fat_sector(cluster)),
            cluster.spec_is_valid() && old(self).device_reliable()
                && old(self).logical_sector_whole(old(self).fat_sector(cluster))
                ==> r == next_result(old(self).spec_fat_entry(cluster)),
    {
        if !cluster.is_valid() {
            return Err(io_error(IoErrorKind::InvalidInput, INVALID_CLUSTER));
        }
        let entry = self.fat_entry(cluster)?;
        next_from_entry(entry)
    }

    /// Reads all of the clusters chained from the starting cluster `start`
    /// into `buf`, after what it holds. Returns how many bytes it read.
    ///
    /// # Errors
    ///
    /// The errors of `read_cluster` and `next_cluster` for the clusters of
    /// the chain, and `InvalidData` if the chain is longer than the number of
    /// data clusters, that is, if it never ends. On an error, `buf` holds
    /// what it held, followed by the clusters read whole before it. A read
    /// that succeeds found each cluster of the chain, and each FAT sector it
    /// looked up, stored whole on the device. On a device whose reads all
    /// succeed, a chain stored whole is always read whole.
    #[verifier::spinoff_prover]
    #[verifier::rlimit(40)]
    pub fn read_chain(&mut self, start: Cluster, buf: &mut Vec<u8>) -> (r: Result<usize, std::io::Error>)
        requires
            old(self).wf(),
            old(self).spec_bytes_per_sector() % 4 == 0,
        ensures
            final(self).wf(),
            final(self).same_disk(old(self)),
            r matches Ok(n) ==> exists|chain: Seq<Cluster>| {
                &&& #[trigger] old(self).is_chain(start, chain)
                &&& final(buf)@ == old(buf)@ + old(self).chain_bytes(chain)
                &&& n == old(self).chain_bytes(chain).len()
                &&& n == chain.len() * old(self).cluster_size()
                &&& old(self).chain_whole(chain)
            },
            r is Err ==> exists|chain: Seq<Cluster>| {
                &&& #[trigger] old(self).is_chain_prefix(start, chain)
                &&& final(buf)@ == old(buf)@ + old(self).chain_bytes(chain)
            },
            !start.spec_is_valid() ==> {
                &&& r == Err::<usize, std::io::Error>(io_error_of(IoErrorKind::InvalidInput, INVALID_CLUSTER@))
                &&& final(buf)@ == old(buf)@
            },
            forall|chain: Seq<Cluster>|
                #[trigger] old(self).is_chain(start, chain)
                    && old(self).chain_whole(chain) && old(self).device_reliable() ==> {
                    &&& r == Ok::<usize, std::io::Error>((chain.len() * old(self).cluster_size()) as usize)
                    &&& final(buf)@ == old(buf)@ + old(self).chain_bytes(chain)
                },
    {
        let sector_size = self.bytes_per_sector as usize;
        let sectors_per_cluster = self.sectors_per_cluster as usize;
        assert(sector_size * sectors_per_cluster <= 0xFFFF * 0xFF) by (nonlinear_arith)
            requires
                sector_size <= 0xFFFF,
                sectors_per_cluster <= 0xFF,
        ;
        let cluster_size = sector_size * sectors_per_cluster;
        let initial_len = buf.len();
        let mut cur = start;
        let mut steps: u32 = 0;
        let ghost mut chain: Seq<Cluster> = Seq::empty();
        let ghost disk = *old(self);
        let ghost good: bool = exists|ch: Seq<Cluster>| #[trigger] disk.is_chain(start, ch)
            && disk.chain_whole(ch) && disk.device_reliable();
        let ghost full: Seq<Cluster> = choose|ch: Seq<Cluster>| #[trigger] disk.is_chain(start, ch)
            && disk.chain_whole(ch) && disk.device_reliable();
        proof {
            assert(disk.chain_bytes(chain) =~= Seq::<u8>::empty());
            assert(buf@ =~= old(buf)@ + disk.chain_bytes(chain));
            if good {
                assert(chain =~= full.take(0));
                disk.lemma_chain_len(start, full);
            }
        }
        loop
            invariant
                self.wf(),
                self.same_disk(&disk),
                disk == *old(self),
                self.bytes_per_sector % 4 == 0,
                cluster_size == self.cluster_size(),
                initial_len == old(buf)@.len(),
                steps < DATA_CLUSTER_COUNT,
                chain.len() == steps,
                buf@ == old(buf)@ + disk.chain_bytes(chain),
                chain.len() == 0 ==> cur == start,
                disk.is_chain_prefix(start, chain),
                disk.chain_whole(chain),
                chain.len() > 0 ==> next_result(disk.spec_fat_entry(chain.last())) == Ok::<Option<Cluster>, std::io::Error>(Some(cur)),
                good ==> {
                    &&& disk.is_chain(start, full)
                    &&& full.len() <= DATA_CLUSTER_COUNT
                    &&& disk.chain_whole(full)
                    &&& disk.device_reliable()
                    &&& steps < full.len()
                    &&& chain == full.take(steps as int)
                    &&& cur == full[steps as int]
                },
                !good ==> forall|ch: Seq<Cluster>| #[trigger] disk.is_chain(start, ch) ==>
                    !(disk.chain_whole(ch) && disk.device_reliable()),
            decreases DATA_CLUSTER_COUNT - steps,
        {
            let ghost before = *self;
            let mut data = vec![0u8; cluster_size];
            proof {
                if chain.len() == 0 {
                    assert(buf@ =~= old(buf)@);
                } else {
                    assert(chain[0].spec_is_valid());
                }
                if good {
                    assert(full[steps as int].spec_is_valid());
                    assert(disk.cluster_range_whole(cur, 0, disk.cluster_size() as int));
                    self.lemma_same_disk_whole_at(&disk, cur);
                    self.lemma_same_disk(&disk);
                }
            }
            let k = match self.read_cluster(cur, 0, data.as_mut_slice()) {
                Ok(k) => k,
                Err(e) => return Err(e),
            };
            proof {
                before.lemma_same_disk_at(&disk, cur);
                assert(disk.cluster_range_whole(cur, 0, disk.cluster_size() as int)) by {
                    before.lemma_same_disk_whole_at(&disk, cur);
                }
                disk.lemma_cluster_pieces(cur);
                self.lemma_fat_entry_in_sector(cur);
                assert(data@ =~= data@.take(k as int));
                assert(disk.cluster_bytes(cur) =~= disk.cluster_bytes(cur).subrange(0, k as int));
            }
            let ghost mid = *self;
            proof {
                if good {
                    assert(disk.logical_sector_whole(disk.fat_sector(full[steps as int])));
                    mid.lemma_same_disk_whole_at(&disk, cur);
                    mid.lemma_same_disk(&disk);
                }
            }
            let next = match self.next_cluster(cur) {
                Ok(next) => next,
                Err(e) => return Err(e),
            };
            proof {
                mid.lemma_same_disk_at(&disk, cur);
                disk.lemma_chain_bytes_push(chain, cur);
                assert(disk.chain_whole(chain.push(cur))) by {
                    mid.lemma_same_disk_whole_at(&disk, cur);
                    disk.lemma_chain_whole_push(chain, cur);
                }
            }
            buf.append(&mut data);
            proof {
                if good {
                    assert(full.take(steps as int).push(cur) =~= full.take(steps + 1));
                    if steps + 1 < full.len() {
                        assert(next == Some(full[steps + 1]));
                    } else {
                        assert(next is None);
                    }
                }
                chain = chain.push(cur);
                assert(disk.is_chain_prefix(start, chain));
            }
            match chain_step(steps, next) {
                ChainStep::Done => {
                    let total = buf.len() - initial_len;
                    proof {
                        assert(disk.is_chain(start, chain));
                        disk.lemma_chain_bytes_len(chain);
                        if good {
                            assert(chain =~= full);
                            assert forall|ch: Seq<Cluster>| #[trigger] disk.is_chain(start, ch) implies ch == full by {
                                disk.lemma_chain_unique(start, ch, full);
                            }
                        }
                    }
                    return Ok(total);
                },
                ChainStep::Continue(n) => {
                    cur = n;
                    steps = steps + 1;
                },
                ChainStep::Endless => {
                    return Err(io_error(IoErrorKind::InvalidData, ENDLESS_CHAIN));
                },
            }
        }
    }

    /// Builds the file system of the partition at device sector `start` that
    /// `ebpb` describes.
    fn from_parts(device: T, start: u64, ebpb: &BiosParameterBlock) -> (v: VFat<T>)
        requires
            0 < device.spec_sector_size(),
            supported_sector_size(ebpb.bytes_per_logical_sector, device.spec_sector_size() as u64),
            start <= u32::MAX,
        ensures
            v.wf(),
            v.mounted_from(start, ebpb),
            v.spec_device_sectors() == device.spec_sectors(),
    {
        let device_sector_size = device.sector_size();
        proof {
            let bps = ebpb.bytes_per_logical_sector as nat;
            if device_sector_size as nat > bps {
                vstd::arithmetic::div_mod::lemma_small_mod(bps, device_sector_size as nat);
            }
        }
        let sectors_per_fat = ebpb.logical_sectors_per_FAT();
        let fat_start_sector = start + ebpb.reserved_logical_sectors as u64;
        assert(sectors_per_fat as u64 * ebpb.num_of_FATs as u64 <= 0xFFFF_FFFF * 0xFF) by (nonlinear_arith)
            requires
                sectors_per_fat <= 0xFFFF_FFFF,
                ebpb.num_of_FATs <= 0xFF,
        ;
        VFat {
            device,
            device_sector_size,
            partition_start: start,
            bytes_per_sector: ebpb.bytes_per_logical_sector,
            sectors_per_cluster: ebpb.logical_sectors_per_cluster,
            sectors_per_fat,
            fat_start_sector,
            data_start_sector: fat_start_sector + sectors_per_fat as u64 * ebpb.num_of_FATs as u64,
            root_dir_cluster: Cluster::from(ebpb.root_directory_cluster),
        }
    }
}

} // verus!
