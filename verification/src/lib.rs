use vstd::prelude::*;

pub mod align;
pub mod device;
pub mod guid;
pub mod options;
pub mod publish;
pub mod stage;
pub mod table;
pub mod text;

verus! {

/// Failure taxonomy of the partition-loading core.
#[derive(Clone, Copy, Debug, PartialEq, Eq, Structural)]
pub enum Error {
    /// The boot-option string is malformed or names no boot index.
    Config,
    /// A transfer was out of range or would need more than one
    /// block-boundary correction.
    Io,
    /// Zero or several partitions answered to the boot selector,
    /// or a non-GPT outer entry was met.
    Selection,
    /// A nested header declares a size its container cannot hold.
    Corruption,
    /// A linear target could not be derived for registration.
    Registration,
}

} // verus!
