use vstd::prelude::*;

use crate::bytes::copy_into;

verus! {

/// A device that stores data in fixed-size sectors and can read them.
///
/// Implementors promise that a read hands back a prefix of the sector that
/// was asked for, and that reading leaves the stored data unchanged.
pub trait BlockDevice {
    /// The size in bytes of one sector.
    spec fn spec_sector_size(&self) -> nat;

    /// The bytes stored in each sector: `spec_sectors()(n)` is sector `n`,
    /// shorter than a sector, or empty, past the end of the device.
    spec fn spec_sectors(&self) -> spec_fn(u64) -> Seq<u8>;

    /// Whether every read of the device succeeds, giving back as much of the
    /// sector as fits in the buffer. This stays as it is across reads.
    spec fn spec_reliable(&self) -> bool;

    /// Returns the size in bytes of one sector.
    fn sector_size(&self) -> (size: u64)
        ensures
            size == self.spec_sector_size(),
    ;

    /// Reads sector `n` into `buf`: at most `buf.len()` bytes, and at most the
    /// sector's. Returns how many bytes it read.
    fn read_sector(&mut self, n: u64, buf: &mut [u8]) -> (r: Result<usize, std::io::Error>)
        ensures
            final(self).spec_sector_size() == old(self).spec_sector_size(),
            final(self).spec_sectors() == old(self).spec_sectors(),
            final(self).spec_reliable() == old(self).spec_reliable(),
            final(buf)@.len() == old(buf)@.len(),
            old(self).spec_reliable() ==> (r matches Ok(k) && k == if old(self).spec_sectors()(n).len() < old(buf)@.len() {
                old(self).spec_sectors()(n).len()
            } else {
                old(buf)@.len()
            }),
            r matches Ok(k) ==> {
                &&& k <= old(buf)@.len()
                &&& k <= old(self).spec_sectors()(n).len()
                &&& final(buf)@.take(k as int) == old(self).spec_sectors()(n).take(k as int)
            },
    ;
}

/// A disk held in memory: its bytes, cut into sectors of `sector_size`
/// bytes; the last sector may be shorter.
#[derive(Debug)]
pub struct MemoryDisk {
    bytes: Vec<u8>,
    sector_size: u64,
}

/// Sector `n` of the bytes `bytes` cut into sectors of `size` bytes.
pub open spec fn sector_of(bytes: Seq<u8>, size: nat, n: u64) -> Seq<u8> {
    let start = n * size;
    if start >= bytes.len() {
        Seq::empty()
    } else if start + size > bytes.len() {
        bytes.subrange(start as int, bytes.len() as int)
    } else {
        bytes.subrange(start as int, start + size)
    }
}

impl MemoryDisk {
    /// Returns a disk that holds `bytes` in sectors of `sector_size` bytes.
    pub fn new(bytes: Vec<u8>, sector_size: u64) -> (d: MemoryDisk)
        ensures
            d.spec_sector_size() == sector_size,
            d.spec_sectors() == (|n: u64| sector_of(bytes@, sector_size as nat, n)),
    {
        MemoryDisk { bytes, sector_size }
    }
}

impl BlockDevice for MemoryDisk {
    closed spec fn spec_sector_size(&self) -> nat {
        self.sector_size as nat
    }

    closed spec fn spec_sectors(&self) -> spec_fn(u64) -> Seq<u8> {
        |n: u64| sector_of(self.bytes@, self.sector_size as nat, n)
    }

    /// A disk in memory never fails a read.
    open spec fn spec_reliable(&self) -> bool {
        true
    }

    fn sector_size(&self) -> (size: u64) {
        self.sector_size
    }

    /// Never fails: reads the whole sector, or as much of it as fits in
    /// `buf`, and leaves the rest of `buf` as it was.
    fn read_sector(&mut self, n: u64, buf: &mut [u8]) -> (r: Result<usize, std::io::Error>)
        ensures
            ({
                let sector = old(self).spec_sectors()(n);
                let k = if sector.len() < old(buf)@.len() { sector.len() } else { old(buf)@.len() };
                &&& r == Ok::<usize, std::io::Error>(k as usize)
                &&& final(buf)@.take(k as int) == sector.take(k as int)
                &&& final(buf)@.skip(k as int) == old(buf)@.skip(k as int)
            }),
    {
        let len = self.bytes.len();
        let start = match n.checked_mul(self.sector_size) {
            Some(start) => start,
            None => {
                assert(buf@.skip(0) =~= buf@);
                return Ok(0);
            },
        };
        if start >= len as u64 {
            assert(buf@.skip(0) =~= buf@);
            return Ok(0);
        }
        let start = start as usize;
        let left = len - start;
        let in_sector = if (left as u64) < self.sector_size { left } else { self.sector_size as usize };
        let k = if in_sector < buf.len() { in_sector } else { buf.len() };
        let ghost sector = sector_of(self.bytes@, self.sector_size as nat, n);
        let ghost before = buf@;
        copy_into(buf, 0, self.bytes.as_slice(), start, k);
        assert(sector.take(k as int) =~= self.bytes@.subrange(start as int, start + k));
        assert(buf@.skip(k as int) =~= before.skip(k as int)) by {
            assert(buf@.subrange(k as int, buf@.len() as int) == before.subrange(k as int, before.len() as int));
        }
        Ok(k)
    }
}

} // verus!
