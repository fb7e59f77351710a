use vstd::prelude::*;

verus! {

/// The recoverable failures of the library.
///
/// `Io`, `Parse` and `InvalidFormat` describe the plain-text palette cache;
/// `UntranslatableEncoding` is raised when a color cannot be resolved, such
/// as a name that is not in the named-color table.
#[derive(Debug, Clone, PartialEq, Eq)]
pub enum PaletteError {
    Io(String),
    Parse(String),
    InvalidFormat(String),
    UntranslatableEncoding(String),
}

} // verus!
