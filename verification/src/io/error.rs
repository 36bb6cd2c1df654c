use vstd::prelude::*;

verus! {

/// The kinds of I/O error. No particular kind is defined yet, so every
/// error is of the catch-all kind `Other`; it is there because Verus does
/// not accept an enum without variants.
pub enum ErrorKind {
    Other,
}

/// An I/O error: a message and its kind.
pub struct Error {
    message: String,
    kind: ErrorKind,
}

/// The result of an I/O operation.
pub type Result<T> = core::result::Result<T, Error>;

} // verus!
