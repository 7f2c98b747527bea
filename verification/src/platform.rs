//! The operating systems that the library tells apart.

use vstd::prelude::*;

verus! {

/// The operating system an addon is loaded on, or a producer runs on.
#[derive(Debug, Clone, Copy, PartialEq, Eq, Structural)]
pub enum Host {
    MacOs,
    Linux,
    Windows,
    /// Any system without a compressing backend and an object format of its own.
    Other,
}

} // verus!
