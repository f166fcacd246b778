use vstd::prelude::*;
use crate::toolchain::Toolchain;

verus! {

/// The ways in which a measuring session can fail. Every one of them is fatal
/// to the session; already recorded results stay valid.
#[derive(Debug, Clone, PartialEq, Eq)]
pub enum Error {
    /// The toolchain selection was ambiguous (both kinds given) or empty (none given).
    Config,
    /// The CPU mask names CPUs that do not exist, or the reservation could not be made.
    ShieldUnavailable,
    /// This toolchain could not be installed.
    Install(Toolchain),
    /// The benchmark with this name failed or crashed.
    BenchmarkExecution(String),
    /// A persisted record could not be read back.
    StoreCorrupt,
}

} // verus!
