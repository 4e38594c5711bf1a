//! Verified pieces of a small Raspberry Pi operating system: reading a FAT32
//! disk (master boot record, BIOS parameter block, clusters and their
//! chains), the kernel shell (line editing, command parsing, echo), the
//! ATAG list that the firmware hands over, and durations.

pub mod bytes;
pub mod io_error;
pub mod traits;
pub mod mbr;
pub mod vfat;
pub mod duration;
pub mod shell;
pub mod line_editor;
pub mod atags;
