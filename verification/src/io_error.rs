use vstd::prelude::*;

verus! {

/// Declares `std::io::Error` to Verus, as an opaque type: the errors that a
/// device reports, and that this library builds with `io_error`, are carried
/// through without Verus seeing inside them.
#[verifier::external_type_specification]
#[verifier::external_body]
pub struct ExIoError(std::io::Error);

/// The kinds of I/O error that this library reports itself; each stands
/// for the `std::io::ErrorKind` of the same name.
#[derive(Debug, Clone, Copy, PartialEq, Eq, Structural)]
pub enum IoErrorKind {
    NotFound,
    InvalidInput,
    InvalidData,
    UnexpectedEof,
    Other,
}

/// The error that `std::io::Error::new` builds from a kind and a message.
pub uninterp spec fn io_error_of(kind: IoErrorKind, msg: Seq<char>) -> std::io::Error;

/// Calls `std::io::Error::new` with the `std::io::ErrorKind` that `kind`
/// stands for and the message `msg`. The contract names the result by its
/// two arguments; what the error holds is not stated beyond that name.
#[verifier::external_body]
pub fn io_error(kind: IoErrorKind, msg: &str) -> (e: std::io::Error)
    ensures
        e == io_error_of(kind, msg@),
{
    let kind = match kind {
        IoErrorKind::NotFound => std::io::ErrorKind::NotFound,
        IoErrorKind::InvalidInput => std::io::ErrorKind::InvalidInput,
        IoErrorKind::InvalidData => std::io::ErrorKind::InvalidData,
        IoErrorKind::UnexpectedEof => std::io::ErrorKind::UnexpectedEof,
        IoErrorKind::Other => std::io::ErrorKind::Other,
    };
    std::io::Error::new(kind, msg)
}

} // verus!
