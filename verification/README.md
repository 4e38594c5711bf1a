# rpi_os

Verified pieces of a small operating system for the Raspberry Pi, written in
Verus.

- `src/mbr.rs`, `src/vfat/`: reading a FAT32 disk through a `BlockDevice`:
  the master boot record, the extended BIOS parameter block, mounting the
  first FAT32 partition, reading clusters, following FAT entries and reading
  whole cluster chains. `src/traits.rs` holds the device trait and an
  in-memory disk.
- `src/line_editor.rs`, `src/shell.rs`: the kernel shell: line editing with
  its terminal echo, command parsing, `echo`, and the answer to each line.
- `src/atags.rs`: the ATAG list that the firmware leaves in memory.
- `src/duration.rs`: durations in three units, compared by their span.
- `app/`: `ttywrite`, which sends a file to a TTY (raw or over XMODEM), and
  the kernel's console loops run against standard input and output.
