use vstd::prelude::*;

use crate::bytes::{le_u16, le_u32, read_u16_le, read_u32_le, copy_range};
use crate::io_error::{io_error, io_error_of, IoErrorKind};
use crate::traits::BlockDevice;

verus! {

/// Size in bytes of a master boot record.
pub const MBR_SIZE: usize = 512;

/// Byte offset of the first partition entry in the master boot record.
pub const PARTITION_TABLE_OFFSET: usize = 446;

/// Size in bytes of one partition entry.
pub const PARTITION_ENTRY_SIZE: usize = 16;

/// Number of partition entries in the master boot record.
pub const NUM_PARTITIONS: usize = 4;

/// The signature that closes a valid master boot record.
pub const MBR_MAGIC: u16 = 0xaa55;

/// Boot indicator of a partition that is not bootable.
pub const BOOT_INACTIVE: u8 = 0x00;

/// Boot indicator of a bootable partition.
pub const BOOT_ACTIVE: u8 = 0x80;

/// Partition type of FAT32 with CHS addressing.
pub const PARTITION_TYPE_FAT32_CHS: u8 = 0x0b;

/// Partition type of FAT32 with LBA addressing.
pub const PARTITION_TYPE_FAT32_LBA: u8 = 0x0c;

/// Message of the error for a sector that was not read whole.
pub const SHORT_MBR_READ: &'static str = "unable to cast this sector as MBR";

/// A cylinder-head-sector address.
#[derive(Debug, Clone, Copy, PartialEq, Eq, Structural)]
pub struct CHS {
    pub starting_head: u8,
    pub starting_sector_cylinder: u8,
    pub starting_cylinder: u8,
}

/// One entry of the partition table.
#[allow(non_snake_case)]
#[derive(Debug, Clone, Copy, PartialEq, Eq, Structural)]
pub struct PartitionEntry {
    pub boot_indicator: u8,
    pub starting_CHS: CHS,
    pub partition_type: u8,
    pub ending_CHS: CHS,
    pub relative_sector: u32,
    pub total_sectors: u32,
}

/// The master boot record (MBR).
#[allow(non_snake_case)]
#[derive(Debug)]
pub struct MasterBootRecord {
    pub MBR_bootstrap: Vec<u8>,
    pub unique_disk_ID: Vec<u8>,
    pub partitions: [PartitionEntry; 4],
    pub magic: u16,
}

/// Errors in reading a master boot record.
#[derive(Debug)]
pub enum Error {
    /// There was an I/O error while reading the MBR.
    Io(std::io::Error),
    /// Partition `.0` (0-indexed) contains an invalid or unknown boot indicator.
    UnknownBootIndicator(u8),
    /// The MBR magic signature was invalid.
    BadSignature,
}

impl From<std::io::Error> for Error {
    fn from(error: std::io::Error) -> (r: Self) {
        Error::Io(error)
    }
}

impl vstd::std_specs::convert::FromSpecImpl<std::io::Error> for Error {
    open spec fn obeys_from_spec() -> bool {
        true
    }

    open spec fn from_spec(error: std::io::Error) -> Self {
        Error::Io(error)
    }
}

/// The CHS address stored in the three bytes of `b` at `off`.
pub open spec fn spec_chs(b: Seq<u8>, off: int) -> CHS {
    CHS { starting_head: b[off], starting_sector_cylinder: b[off + 1], starting_cylinder: b[off + 2] }
}

/// Byte offset of partition entry `i`.
pub open spec fn partition_offset(i: int) -> int {
    PARTITION_TABLE_OFFSET + PARTITION_ENTRY_SIZE * i
}

/// The partition entry stored in the sixteen bytes of `b` at `off`.
pub open spec fn spec_partition_entry(b: Seq<u8>, off: int) -> PartitionEntry {
    PartitionEntry {
        boot_indicator: b[off],
        starting_CHS: spec_chs(b, off + 1),
        partition_type: b[off + 4],
        ending_CHS: spec_chs(b, off + 5),
        relative_sector: le_u32(b, off + 8) as u32,
        total_sectors: le_u32(b, off + 12) as u32,
    }
}

/// The boot indicator byte of partition entry `i` of the sector `b`: byte
/// `446 + 16 * i`.
pub open spec fn boot_byte(b: Seq<u8>, i: int) -> u8 {
    b[446 + 16 * i]
}

/// Whether `x` is a boot indicator that a partition entry may hold.
pub open spec fn valid_boot_indicator(x: u8) -> bool {
    x == BOOT_INACTIVE || x == BOOT_ACTIVE
}

/// Whether the signature at the end of the sector `b` is the MBR magic.
pub open spec fn mbr_signature_valid(b: Seq<u8>) -> bool {
    le_u16(b, 510) == MBR_MAGIC
}

/// Whether partition `i` of sector `b` has a valid boot indicator.
pub open spec fn partition_boot_valid(b: Seq<u8>, i: int) -> bool {
    valid_boot_indicator(b[partition_offset(i)])
}

/// Whether partition `i` of sector `b` is the first with an invalid boot indicator.
pub open spec fn first_bad_boot_indicator(b: Seq<u8>, i: int) -> bool {
    &&& 0 <= i < NUM_PARTITIONS
    &&& !partition_boot_valid(b, i)
    &&& forall|j: int| 0 <= j < i ==> partition_boot_valid(b, j)
}

/// Whether every partition of sector `b` has a valid boot indicator.
pub open spec fn all_boot_indicators_valid(b: Seq<u8>) -> bool {
    forall|j: int| 0 <= j < NUM_PARTITIONS ==> partition_boot_valid(b, j)
}

/// Whether `b` is a sector that reads as a master boot record.
pub open spec fn valid_mbr_sector(b: Seq<u8>) -> bool {
    &&& b.len() == MBR_SIZE
    &&& mbr_signature_valid(b)
    &&& all_boot_indicators_valid(b)
}

impl MasterBootRecord {
    /// Whether `self` holds the fields stored in the sector `b`.
    pub open spec fn decodes(&self, b: Seq<u8>) -> bool {
        &&& self.MBR_bootstrap@ == b.subrange(0, 436)
        &&& self.unique_disk_ID@ == b.subrange(436, 446)
        &&& forall|i: int| 0 <= i < NUM_PARTITIONS ==>
            #[trigger] self.partitions[i] == spec_partition_entry(b, partition_offset(i))
        &&& self.magic == le_u16(b, 510)
    }

    /// A record that decodes `b` holds the partition entries stored in `b`.
    pub proof fn lemma_decodes_partitions(&self, b: Seq<u8>)
        requires
            self.decodes(b),
        ensures
            self.partitions@ == spec_partitions(b),
    {
        assert(self.partitions@ =~= spec_partitions(b));
    }

    /// The layout of the record in its sector: the bootstrap code and the
    /// disk id at their places, the four sixteen-byte partition entries from
    /// byte 446 on, numbers stored little-endian, and the signature in the
    /// last two bytes.
    pub proof fn lemma_decoded_layout(&self, b: Seq<u8>)
        requires
            self.decodes(b),
            b.len() == MBR_SIZE,
        ensures
            self.MBR_bootstrap@.len() == 436,
            forall|i: int| 0 <= i < 436 ==> #[trigger] self.MBR_bootstrap@[i] == b[i],
            self.unique_disk_ID@.len() == 10,
            forall|i: int| 0 <= i < 10 ==> #[trigger] self.unique_disk_ID@[i] == b[436 + i],
            forall|i: int| 0 <= i < 4 ==> {
                let p = #[trigger] self.partitions[i];
                let o = 446 + 16 * i;
                &&& p.boot_indicator == b[o]
                &&& p.starting_CHS.starting_head == b[o + 1]
                &&& p.starting_CHS.starting_sector_cylinder == b[o + 2]
                &&& p.starting_CHS.starting_cylinder == b[o + 3]
                &&& p.partition_type == b[o + 4]
                &&& p.ending_CHS.starting_head == b[o + 5]
                &&& p.ending_CHS.starting_sector_cylinder == b[o + 6]
                &&& p.ending_CHS.starting_cylinder == b[o + 7]
                &&& p.relative_sector == b[o + 8] + 256 * b[o + 9] + 65536 * b[o + 10] + 16777216 * b[o + 11]
                &&& p.total_sectors == b[o + 12] + 256 * b[o + 13] + 65536 * b[o + 14] + 16777216 * b[o + 15]
            },
            self.magic == b[510] + 256 * b[511],
    {
        assert forall|i: int| 0 <= i < 4 implies {
            let p = #[trigger] self.partitions[i];
            let o = 446 + 16 * i;
            &&& p.relative_sector == b[o + 8] + 256 * b[o + 9] + 65536 * b[o + 10] + 16777216 * b[o + 11]
            &&& p.total_sectors == b[o + 12] + 256 * b[o + 13] + 65536 * b[o + 14] + 16777216 * b[o + 15]
        } by {
            let o = 446 + 16 * i;
            let rs = le_u32(b, o + 8);
            let ts = le_u32(b, o + 12);
            assert(0 <= rs <= 0xFFFF_FFFF);
            assert(0 <= ts <= 0xFFFF_FFFF);
        }
    }

    /// Which answer reading the sector `b` as a master boot record gives: an
    /// I/O error unless `b` is 512 bytes long; `BadSignature` unless it ends
    /// in 0x55, 0xAA; `UnknownBootIndicator(i)` for the first partition `i`
    /// whose boot indicator (byte `446 + 16 * i`) is neither 0x00 nor 0x80;
    /// and the record otherwise.
    pub proof fn lemma_parse_cases(b: Seq<u8>, r: Result<MasterBootRecord, Error>)
        requires
            Self::parse_result(b, r),
        ensures
            b.len() != 512 ==> r matches Err(Error::Io(_)),
            b.len() == 512 && !(b[510] == 0x55 && b[511] == 0xAA) ==> r matches Err(Error::BadSignature),
            forall|i: int|
                b.len() == 512 && b[510] == 0x55 && b[511] == 0xAA && 0 <= i < 4
                && #[trigger] boot_byte(b, i) != 0x00 && boot_byte(b, i) != 0x80
                && (forall|j: int| 0 <= j < i ==> #[trigger] boot_byte(b, j) == 0x00 || boot_byte(b, j) == 0x80)
                ==> r == Err::<MasterBootRecord, Error>(Error::UnknownBootIndicator(i as u8)),
            b.len() == 512 && b[510] == 0x55 && b[511] == 0xAA
                && (forall|j: int| 0 <= j < 4 ==> #[trigger] boot_byte(b, j) == 0x00 || boot_byte(b, j) == 0x80)
                ==> (r matches Ok(m) && m.decodes(b)),
    {
        if b.len() == 512 && b[510] == 0x55 && b[511] == 0xAA {
            assert(mbr_signature_valid(b));
            assert forall|i: int|
                b.len() == 512 && b[510] == 0x55 && b[511] == 0xAA && 0 <= i < 4
                && #[trigger] boot_byte(b, i) != 0x00 && boot_byte(b, i) != 0x80
                && (forall|j: int| 0 <= j < i ==> #[trigger] boot_byte(b, j) == 0x00 || boot_byte(b, j) == 0x80)
                implies r == Err::<MasterBootRecord, Error>(Error::UnknownBootIndicator(i as u8)) by {
                assert(!partition_boot_valid(b, i));
                assert forall|j: int| 0 <= j < i implies partition_boot_valid(b, j) by {
                    assert(boot_byte(b, j) == 0x00 || boot_byte(b, j) == 0x80);
                }
                assert(first_bad_boot_indicator(b, i));
                match r {
                    Err(Error::UnknownBootIndicator(n)) => {
                        assert(first_bad_boot_indicator(b, n as int));
                        if (n as int) < i {
                            assert(boot_byte(b, n as int) == 0x00 || boot_byte(b, n as int) == 0x80);
                        } else if (n as int) > i {
                            assert(partition_boot_valid(b, i));
                        }
                    },
                    _ => {},
                }
            }
            if forall|j: int| 0 <= j < 4 ==> #[trigger] boot_byte(b, j) == 0x00 || boot_byte(b, j) == 0x80 {
                assert forall|j: int| 0 <= j < NUM_PARTITIONS implies partition_boot_valid(b, j) by {
                    assert(boot_byte(b, j) == 0x00 || boot_byte(b, j) == 0x80);
                }
            }
        } else if b.len() == 512 {
            assert(!mbr_signature_valid(b));
        }
    }

    /// What reading the sector `b` as a master boot record gives: `Ok` with
    /// the record that `decodes` it, or the error below.
    pub open spec fn parse_result(b: Seq<u8>, r: Result<MasterBootRecord, Error>) -> bool {
        if b.len() != MBR_SIZE {
            r == Err::<MasterBootRecord, Error>(
                Error::Io(io_error_of(IoErrorKind::UnexpectedEof, SHORT_MBR_READ@)),
            )
        } else if !mbr_signature_valid(b) {
            r is Err && r->Err_0 is BadSignature
        } else if !all_boot_indicators_valid(b) {
            r matches Err(Error::UnknownBootIndicator(n)) && first_bad_boot_indicator(b, n as int)
        } else {
            r matches Ok(m) && m.decodes(b)
        }
    }

    /// Reads a master boot record from `bytes`, the bytes that a read of
    /// the device's first sector gave back.
    ///
    /// # Errors
    ///
    /// Returns `Io` if `bytes` is not a whole record, `BadSignature` if the
    /// record's magic signature is invalid, and `UnknownBootIndicator(n)` if
    /// partition `n` holds an invalid boot indicator.
    pub fn from_bytes(bytes: &[u8]) -> (r: Result<MasterBootRecord, Error>)
        ensures
            Self::parse_result(bytes@, r),
    {
        if bytes.len() != MBR_SIZE {
            return Err(Error::Io(io_error(IoErrorKind::UnexpectedEof, SHORT_MBR_READ)));
        }
        let magic = read_u16_le(bytes, 510);
        if magic != MBR_MAGIC {
            return Err(Error::BadSignature);
        }
        let mut i: usize = 0;
        while i < NUM_PARTITIONS
            invariant
                i <= NUM_PARTITIONS,
                bytes@.len() == MBR_SIZE,
                mbr_signature_valid(bytes@),
                forall|j: int| 0 <= j < i ==> partition_boot_valid(bytes@, j),
            decreases NUM_PARTITIONS - i,
        {
            let indicator = bytes[PARTITION_TABLE_OFFSET + PARTITION_ENTRY_SIZE * i];
            if indicator != BOOT_INACTIVE && indicator != BOOT_ACTIVE {
                assert(first_bad_boot_indicator(bytes@, i as int));
                assert(!all_boot_indicators_valid(bytes@)) by {
                    assert(!partition_boot_valid(bytes@, i as int));
                }
                return Err(Error::UnknownBootIndicator(i as u8));
            }
            i = i + 1;
        }
        let partitions = [
            read_partition_entry(bytes, partition_offset_exec(0)),
            read_partition_entry(bytes, partition_offset_exec(1)),
            read_partition_entry(bytes, partition_offset_exec(2)),
            read_partition_entry(bytes, partition_offset_exec(3)),
        ];
        let mbr = MasterBootRecord {
            MBR_bootstrap: copy_range(bytes, 0, 436),
            unique_disk_ID: copy_range(bytes, 436, 10),
            partitions,
            magic,
        };
        Ok(mbr)
    }

    /// Reads and returns the master boot record (MBR) from `device`.
    ///
    /// # Errors
    ///
    /// Returns `BadSignature` if the MBR contains an invalid magic signature.
    /// Returns `UnknownBootIndicator(n)` if partition `n` contains an invalid
    /// boot indicator. Returns `Io(err)` if the I/O error `err` occured while
    /// reading the MBR.
    pub fn from<T: BlockDevice>(device: &mut T) -> (r: Result<MasterBootRecord, Error>)
        ensures
            final(device).spec_sectors() == old(device).spec_sectors(),
            final(device).spec_sector_size() == old(device).spec_sector_size(),
            final(device).spec_reliable() == old(device).spec_reliable(),
            old(device).spec_reliable() && old(device).spec_sectors()(0).len() >= MBR_SIZE
                ==> Self::parse_result(old(device).spec_sectors()(0).take(MBR_SIZE as int), r),
            !(r matches Err(Error::Io(_))) ==> {
                &&& old(device).spec_sectors()(0).len() >= MBR_SIZE
                &&& Self::parse_result(old(device).spec_sectors()(0).take(MBR_SIZE as int), r)
            },
    {
        let mut buf = vec![0u8; MBR_SIZE];
        let size = match device.read_sector(0, buf.as_mut_slice()) {
            Ok(size) => size,
            Err(e) => return Err(Error::Io(e)),
        };
        let r = Self::from_bytes(&buf[0..size]);
        proof {
            if size == MBR_SIZE {
                assert(buf@.subrange(0, size as int) == old(device).spec_sectors()(0).take(MBR_SIZE as int));
            }
        }
        r
    }

    /// Returns the relative sector of the first FAT32 partition, if any.
    pub fn first_vfat_partition(&self) -> (r: Option<u32>)
        ensures
            r == spec_first_vfat_partition(self.partitions@),
    {
        let mut i: usize = 0;
        while i < NUM_PARTITIONS
            invariant
                i <= NUM_PARTITIONS,
                forall|j: int| 0 <= j < i ==> !is_fat32_partition(#[trigger] self.partitions[j]),
            decreases NUM_PARTITIONS - i,
        {
            let t = self.partitions[i].partition_type;
            if t == PARTITION_TYPE_FAT32_CHS || t == PARTITION_TYPE_FAT32_LBA {
                assert(is_fat32_partition(self.partitions[i as int]));
                return Some(self.partitions[i].relative_sector);
            }
            i = i + 1;
        }
        None
    }
}

/// The relative sector of the first FAT32 partition among the four entries
/// of `parts`, if any.
pub open spec fn spec_first_vfat_partition(parts: Seq<PartitionEntry>) -> Option<u32> {
    if is_fat32_partition(parts[0]) {
        Some(parts[0].relative_sector)
    } else if is_fat32_partition(parts[1]) {
        Some(parts[1].relative_sector)
    } else if is_fat32_partition(parts[2]) {
        Some(parts[2].relative_sector)
    } else if is_fat32_partition(parts[3]) {
        Some(parts[3].relative_sector)
    } else {
        None
    }
}

/// The first FAT32 partition of a partition table: `Some` with the relative
/// sector of the first of the four entries whose type is 0x0B or 0x0C, and
/// `None` only when none of the four has either type.
pub proof fn lemma_first_vfat_partition(parts: Seq<PartitionEntry>)
    requires
        parts.len() == 4,
    ensures
        spec_first_vfat_partition(parts) is None <==> forall|i: int| 0 <= i < 4 ==>
            (#[trigger] parts[i]).partition_type != 0x0b && parts[i].partition_type != 0x0c,
        spec_first_vfat_partition(parts) matches Some(p) ==> exists|i: int| {
            &&& 0 <= i < 4
            &&& (#[trigger] parts[i]).partition_type == 0x0b || parts[i].partition_type == 0x0c
            &&& p == parts[i].relative_sector
            &&& forall|j: int| 0 <= j < i ==>
                (#[trigger] parts[j]).partition_type != 0x0b && parts[j].partition_type != 0x0c
        },
{
    if spec_first_vfat_partition(parts) is None {
        assert forall|i: int| 0 <= i < 4 implies
            (#[trigger] parts[i]).partition_type != 0x0b && parts[i].partition_type != 0x0c by {
            assert(i == 0 || i == 1 || i == 2 || i == 3);
        }
    } else {
        let i: int = if is_fat32_partition(parts[0]) { 0 } else if is_fat32_partition(parts[1]) { 1 }
            else if is_fat32_partition(parts[2]) { 2 } else { 3 };
        assert(parts[i].partition_type == 0x0b || parts[i].partition_type == 0x0c);
        assert forall|j: int| 0 <= j < i implies
            (#[trigger] parts[j]).partition_type != 0x0b && parts[j].partition_type != 0x0c by {
            assert(j == 0 || j == 1 || j == 2);
        }
    }
    if forall|i: int| 0 <= i < 4 ==>
        (#[trigger] parts[i]).partition_type != 0x0b && parts[i].partition_type != 0x0c {
        assert(!is_fat32_partition(parts[0]));
        assert(!is_fat32_partition(parts[1]));
        assert(!is_fat32_partition(parts[2]));
        assert(!is_fat32_partition(parts[3]));
    }
}

/// The four partition entries stored in the sector `b`.
pub open spec fn spec_partitions(b: Seq<u8>) -> Seq<PartitionEntry> {
    Seq::new(NUM_PARTITIONS as nat, |i: int| spec_partition_entry(b, partition_offset(i)))
}

/// Whether partition entry `p` describes a FAT32 partition.
pub open spec fn is_fat32_partition(p: PartitionEntry) -> bool {
    p.partition_type == PARTITION_TYPE_FAT32_CHS || p.partition_type == PARTITION_TYPE_FAT32_LBA
}

fn partition_offset_exec(i: usize) -> (off: usize)
    requires
        i < NUM_PARTITIONS,
    ensures
        off == partition_offset(i as int),
        off + PARTITION_ENTRY_SIZE <= MBR_SIZE - 2,
{
    PARTITION_TABLE_OFFSET + PARTITION_ENTRY_SIZE * i
}

fn read_chs(bytes: &[u8], off: usize) -> (c: CHS)
    requires
        off + 3 <= bytes@.len(),
    ensures
        c == spec_chs(bytes@, off as int),
{
    CHS { starting_head: bytes[off], starting_sector_cylinder: bytes[off + 1], starting_cylinder: bytes[off + 2] }
}

fn read_partition_entry(bytes: &[u8], off: usize) -> (p: PartitionEntry)
    requires
        off + PARTITION_ENTRY_SIZE <= bytes@.len(),
    ensures
        p == spec_partition_entry(bytes@, off as int),
{
    assert(bytes@.len() == bytes.len());
    PartitionEntry {
        boot_indicator: bytes[off],
        starting_CHS: read_chs(bytes, off + 1),
        partition_type: bytes[off + 4],
        ending_CHS: read_chs(bytes, off + 5),
        relative_sector: read_u32_le(bytes, off + 8),
        total_sectors: read_u32_le(bytes, off + 12),
    }
}

} // verus!
