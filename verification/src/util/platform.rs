//! The operating system, where behavior depends on it.
use vstd::prelude::*;

verus! {

/// The operating systems that are told apart.
#[derive(Debug, Clone, Copy, PartialEq, Eq, Structural)]
pub enum Os {
    Linux,
    MacOs,
    Windows,
    /// Another Unix
    Other,
}

} // verus!
