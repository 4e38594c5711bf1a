use vstd::prelude::*;

use crate::bytes::{le_u16, le_u32, read_u16_le, read_u32_le, copy_range};
use crate::io_error::{io_error, io_error_of, IoErrorKind};
use crate::traits::BlockDevice;
use crate::vfat::Error;

verus! {

/// Size in bytes of an extended BIOS parameter block.
pub const EBPB_SIZE: usize = 512;

/// The signature that closes a valid extended BIOS parameter block.
pub const EBPB_MAGIC: u16 = 0xaa55;

/// Message of the error for a sector that was not read whole.
pub const SHORT_EBPB_READ: &'static str = "unable to cast this sector as EBPB";

/// The FAT32 extended BIOS parameter block.
#[allow(non_snake_case)]
#[derive(Debug)]
pub struct BiosParameterBlock {
    pub EB_XX_90: Vec<u8>,
    pub OEM: Vec<u8>,

    // DOS 2.0 BPB
    pub bytes_per_logical_sector: u16,
    pub logical_sectors_per_cluster: u8,
    pub reserved_logical_sectors: u16,
    pub num_of_FATs: u8,
    pub root_directory_entries: u16,
    pub total_logical_sectors: u16,
    pub media_descriptor: u8,
    pub logical_sectors_per_FAT_0: u16,

    // DOS 2.0 BPB + DOS 3.31 BPB
    pub physical_sectors_per_track: u16,
    pub num_of_heads: u16,
    pub hidden_sectors: u32,
    pub large_total_logical_sectors: u32,

    // DOS 2.0 BPB + DOS 3.31 BPB + DOS 7.1 EBPB
    pub logical_sectors_per_FAT_1: u32,
    pub mirroring_flag: u16,
    pub version: u16,
    pub root_directory_cluster: u32,
    pub FSInfo: u16,
    pub backup_boot_sector: u16,
    pub _reserved: Vec<u8>,
    pub physical_drive_number: u8,
    pub flags: u8,
    pub extended_boot_signature: u8,
    pub volume_serial_number: u32,
    pub volume_label: Vec<u8>,
    pub FSType: Vec<u8>,

    pub boot_code: Vec<u8>,
    pub magic: u16,
}

impl BiosParameterBlock {
    /// Whether `self` holds the fields stored in the sector `b`.
    pub open spec fn decodes(&self, b: Seq<u8>) -> bool {
        &&& self.EB_XX_90@ == b.subrange(0, 3)
        &&& self.OEM@ == b.subrange(3, 11)
        &&& self.bytes_per_logical_sector == le_u16(b, 11)
        &&& self.logical_sectors_per_cluster == b[13]
        &&& self.reserved_logical_sectors == le_u16(b, 14)
        &&& self.num_of_FATs == b[16]
        &&& self.root_directory_entries == le_u16(b, 17)
        &&& self.total_logical_sectors == le_u16(b, 19)
        &&& self.media_descriptor == b[21]
        &&& self.logical_sectors_per_FAT_0 == le_u16(b, 22)
        &&& self.physical_sectors_per_track == le_u16(b, 24)
        &&& self.num_of_heads == le_u16(b, 26)
        &&& self.hidden_sectors == le_u32(b, 28)
        &&& self.large_total_logical_sectors == le_u32(b, 32)
        &&& self.logical_sectors_per_FAT_1 == le_u32(b, 36)
        &&& self.mirroring_flag == le_u16(b, 40)
        &&& self.version == le_u16(b, 42)
        &&& self.root_directory_cluster == le_u32(b, 44)
        &&& self.FSInfo == le_u16(b, 48)
        &&& self.backup_boot_sector == le_u16(b, 50)
        &&& self._reserved@ == b.subrange(52, 64)
        &&& self.physical_drive_number == b[64]
        &&& self.flags == b[65]
        &&& self.extended_boot_signature == b[66]
        &&& self.volume_serial_number == le_u32(b, 67)
        &&& self.volume_label@ == b.subrange(71, 82)
        &&& self.FSType@ == b.subrange(82, 90)
        &&& self.boot_code@ == b.subrange(90, 510)
        &&& self.magic == le_u16(b, 510)
    }

    /// The layout of the block in its sector: each numeric field is the
    /// little-endian number in its bytes (low byte first), and each byte
    /// string is the run of bytes at its place.
    pub proof fn lemma_decoded_layout(&self, b: Seq<u8>)
        requires
            self.decodes(b),
            b.len() == EBPB_SIZE,
        ensures
            self.EB_XX_90@.len() == 3,
            forall|i: int| 0 <= i < 3 ==> #[trigger] self.EB_XX_90@[i] == b[i],
            self.OEM@.len() == 8,
            forall|i: int| 0 <= i < 8 ==> #[trigger] self.OEM@[i] == b[3 + i],
            self.bytes_per_logical_sector == b[11] + 256 * b[12],
            self.logical_sectors_per_cluster == b[13],
            self.reserved_logical_sectors == b[14] + 256 * b[15],
            self.num_of_FATs == b[16],
            self.root_directory_entries == b[17] + 256 * b[18],
            self.total_logical_sectors == b[19] + 256 * b[20],
            self.media_descriptor == b[21],
            self.logical_sectors_per_FAT_0 == b[22] + 256 * b[23],
            self.physical_sectors_per_track == b[24] + 256 * b[25],
            self.num_of_heads == b[26] + 256 * b[27],
            self.hidden_sectors == b[28] + 256 * b[29] + 65536 * b[30] + 16777216 * b[31],
            self.large_total_logical_sectors == b[32] + 256 * b[33] + 65536 * b[34] + 16777216 * b[35],
            self.logical_sectors_per_FAT_1 == b[36] + 256 * b[37] + 65536 * b[38] + 16777216 * b[39],
            self.mirroring_flag == b[40] + 256 * b[41],
            self.version == b[42] + 256 * b[43],
            self.root_directory_cluster == b[44] + 256 * b[45] + 65536 * b[46] + 16777216 * b[47],
            self.FSInfo == b[48] + 256 * b[49],
            self.backup_boot_sector == b[50] + 256 * b[51],
            self._reserved@.len() == 12,
            forall|i: int| 0 <= i < 12 ==> #[trigger] self._reserved@[i] == b[52 + i],
            self.physical_drive_number == b[64],
            self.flags == b[65],
            self.extended_boot_signature == b[66],
            self.volume_serial_number == b[67] + 256 * b[68] + 65536 * b[69] + 16777216 * b[70],
            self.volume_label@.len() == 11,
            forall|i: int| 0 <= i < 11 ==> #[trigger] self.volume_label@[i] == b[71 + i],
            self.FSType@.len() == 8,
            forall|i: int| 0 <= i < 8 ==> #[trigger] self.FSType@[i] == b[82 + i],
            self.boot_code@.len() == 420,
            forall|i: int| 0 <= i < 420 ==> #[trigger] self.boot_code@[i] == b[90 + i],
            self.magic == b[510] + 256 * b[511],
    {
    }

    /// The number of logical sectors that one FAT takes, read from the
    /// block's bytes: the 16-bit count at byte 22 where it is not zero, else
    /// the 32-bit count at byte 36.
    #[allow(non_snake_case)]
    pub proof fn lemma_logical_sectors_per_FAT_layout(&self, b: Seq<u8>)
        requires
            self.decodes(b),
            b.len() == EBPB_SIZE,
        ensures
            self.spec_logical_sectors_per_FAT() == if b[22] + 256 * b[23] > 0 {
                b[22] + 256 * b[23]
            } else {
                b[36] + 256 * b[37] + 65536 * b[38] + 16777216 * b[39]
            },
    {
        self.lemma_decoded_layout(b);
    }

    /// What reading the sector `b` as an extended BIOS parameter block gives:
    /// `Ok` with the block that `decodes` it, or the error below.
    pub open spec fn parse_result(b: Seq<u8>, r: Result<BiosParameterBlock, Error>) -> bool {
        if b.len() != EBPB_SIZE {
            r == Err::<BiosParameterBlock, Error>(
                Error::Io(io_error_of(IoErrorKind::UnexpectedEof, SHORT_EBPB_READ@)),
            )
        } else if le_u16(b, 510) != EBPB_MAGIC {
            r is Err && r->Err_0 is BadSignature
        } else {
            r matches Ok(bpb) && bpb.decodes(b)
        }
    }

    /// Which answer reading the sector `b` as a parameter block gives: an
    /// I/O error unless `b` is 512 bytes long, `BadSignature` unless it ends
    /// in 0x55, 0xAA, and the block otherwise.
    pub proof fn lemma_parse_cases(b: Seq<u8>, r: Result<BiosParameterBlock, Error>)
        requires
            Self::parse_result(b, r),
        ensures
            b.len() != 512 ==> r matches Err(Error::Io(_)),
            b.len() == 512 && !(b[510] == 0x55 && b[511] == 0xAA) ==> r matches Err(Error::BadSignature),
            b.len() == 512 && b[510] == 0x55 && b[511] == 0xAA ==> (r matches Ok(bpb) && bpb.decodes(b)),
    {
    }

    /// The number of logical sectors that one FAT takes, as `logical_sectors_per_FAT` returns it.
    #[allow(non_snake_case)]
    pub open spec fn spec_logical_sectors_per_FAT(&self) -> u32 {
        if self.logical_sectors_per_FAT_0 > 0 {
            self.logical_sectors_per_FAT_0 as u32
        } else {
            self.logical_sectors_per_FAT_1
        }
    }

    /// Reads an extended BIOS parameter block from `bytes`, the bytes that a
    /// read of its sector gave back.
    ///
    /// # Errors
    ///
    /// Returns `Io` if `bytes` is not a whole block and `BadSignature` if the
    /// block's signature is invalid.
    pub fn from_bytes(bytes: &[u8]) -> (r: Result<BiosParameterBlock, Error>)
        ensures
            Self::parse_result(bytes@, r),
    {
        if bytes.len() != EBPB_SIZE {
            return Err(Error::Io(io_error(IoErrorKind::UnexpectedEof, SHORT_EBPB_READ)));
        }
        let magic = read_u16_le(bytes, 510);
        if magic != EBPB_MAGIC {
            return Err(Error::BadSignature);
        }
        Ok(BiosParameterBlock {
            EB_XX_90: copy_range(bytes, 0, 3),
            OEM: copy_range(bytes, 3, 8),
            bytes_per_logical_sector: read_u16_le(bytes, 11),
            logical_sectors_per_cluster: bytes[13],
            reserved_logical_sectors: read_u16_le(bytes, 14),
            num_of_FATs: bytes[16],
            root_directory_entries: read_u16_le(bytes, 17),
            total_logical_sectors: read_u16_le(bytes, 19),
            media_descriptor: bytes[21],
            logical_sectors_per_FAT_0: read_u16_le(bytes, 22),
            physical_sectors_per_track: read_u16_le(bytes, 24),
            num_of_heads: read_u16_le(bytes, 26),
            hidden_sectors: read_u32_le(bytes, 28),
            large_total_logical_sectors: read_u32_le(bytes, 32),
            logical_sectors_per_FAT_1: read_u32_le(bytes, 36),
            mirroring_flag: read_u16_le(bytes, 40),
            version: read_u16_le(bytes, 42),
            root_directory_cluster: read_u32_le(bytes, 44),
            FSInfo: read_u16_le(bytes, 48),
            backup_boot_sector: read_u16_le(bytes, 50),
            _reserved: copy_range(bytes, 52, 12),
            physical_drive_number: bytes[64],
            flags: bytes[65],
            extended_boot_signature: bytes[66],
            volume_serial_number: read_u32_le(bytes, 67),
            volume_label: copy_range(bytes, 71, 11),
            FSType: copy_range(bytes, 82, 8),
            boot_code: copy_range(bytes, 90, 420),
            magic,
        })
    }

    /// Reads the FAT32 extended BIOS parameter block from sector `sector` of
    /// device `device`.
    ///
    /// # Errors
    ///
    /// If the EBPB signature is invalid, returns an error of `BadSignature`.
    /// An I/O error of the device, or a sector that was not read whole, gives
    /// `Io`.
    pub fn from<T: BlockDevice>(device: &mut T, sector: u64) -> (r: Result<BiosParameterBlock, Error>)
        ensures
            final(device).spec_sectors() == old(device).spec_sectors(),
            final(device).spec_sector_size() == old(device).spec_sector_size(),
            final(device).spec_reliable() == old(device).spec_reliable(),
            old(device).spec_reliable() && old(device).spec_sectors()(sector).len() >= EBPB_SIZE
                ==> Self::parse_result(old(device).spec_sectors()(sector).take(EBPB_SIZE as int), r),
            !(r matches Err(Error::Io(_))) ==> {
                &&& old(device).spec_sectors()(sector).len() >= EBPB_SIZE
                &&& Self::parse_result(old(device).spec_sectors()(sector).take(EBPB_SIZE as int), r)
            },
    {
        let mut buf = vec![0u8; EBPB_SIZE];
        let size = match device.read_sector(sector, buf.as_mut_slice()) {
            Ok(size) => size,
            Err(e) => return Err(Error::Io(e)),
        };
        let r = Self::from_bytes(&buf[0..size]);
        proof {
            if size == EBPB_SIZE {
                assert(buf@.subrange(0, size as int) == old(device).spec_sectors()(sector).take(EBPB_SIZE as int));
            }
        }
        r
    }

    /// Returns the number of logical sectors that one FAT takes: the 16-bit
    /// count where it is set, else the 32-bit one.
    #[allow(non_snake_case)]
    pub fn logical_sectors_per_FAT(&self) -> (n: u32)
        ensures
            n == self.spec_logical_sectors_per_FAT(),
    {
        if self.logical_sectors_per_FAT_0 > 0 {
            self.logical_sectors_per_FAT_0 as u32
        } else {
            self.logical_sectors_per_FAT_1
        }
    }
}

} // verus!
