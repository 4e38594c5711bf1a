use vstd::prelude::*;

use crate::mbr;

verus! {

/// Errors in mounting or reading a FAT32 file system.
#[derive(Debug)]
pub enum Error {
    /// The master boot record could not be read.
    Mbr(mbr::Error),
    /// There was an I/O error.
    Io(std::io::Error),
    /// The extended BIOS parameter block has an invalid signature.
    BadSignature,
    /// A requested item was not found.
    NotFound,
}

impl From<mbr::Error> for Error {
    fn from(error: mbr::Error) -> (r: Self) {
        Error::Mbr(error)
    }
}

impl vstd::std_specs::convert::FromSpecImpl<mbr::Error> for Error {
    open spec fn obeys_from_spec() -> bool {
        true
    }

    open spec fn from_spec(error: mbr::Error) -> Self {
        Error::Mbr(error)
    }
}

impl From<std::io::Error> for Error {
    fn from(error: std::io::Error) -> (r: Self) {
        Error::Io(error)
    }
}

impl vstd::std_specs::convert::FromSpecImpl<std::io::Error> for Error {
    open spec fn obeys_from_spec() -> bool {
        true
    }

    open spec fn from_spec(error: std::io::Error) -> Self {
        Error::Io(error)
    }
}

} // verus!
