pub mod analyzer;
pub mod format;
pub mod rust;
pub mod strutil;

use vstd::prelude::*;

verus! {

/// Errors that abort a generation run.
#[derive(Clone, PartialEq, Eq, Debug)]
pub enum Error {
    /// A `TypeName` reference resolves to neither the registry nor the
    /// external definitions; the payload names the dangling reference.
    DanglingTypeName(String),
    /// An enum container whose variant indices are not exactly `0..N-1`.
    NonContiguousEnumIndices,
    /// A placeholder format was reached: the registry was not finalized.
    UnresolvedPlaceholder,
    /// Installing serialization runtimes is delegated to the package manager.
    RuntimeInstallationUnsupported,
}

/// The error reports the dangling reference `n`.
pub open spec fn is_dangling_error(e: Error, n: Seq<char>) -> bool {
    match e {
        Error::DanglingTypeName(s) => s@ == n,
        _ => false,
    }
}

} // verus!
